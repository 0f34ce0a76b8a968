//! Perk burns: tiered perks (CashTiered, TaxRefund) need a strength in
//! 1..=5, other perks accept any strength, the empty perk is refused, and a
//! paused contract refuses every perk burn.

use tycoon::collectibles::{CollectibleError, Collectibles, Perk};
use tycoon::Address;

const CONTRACT: Address = 100;
const ADMIN: Address = 1;
const CALLER: Address = 10;

fn setup() -> (Collectibles, Address) {
    let mut c = Collectibles::new(CONTRACT);
    c.initialize(ADMIN).unwrap();
    (c, ADMIN)
}

/// Stocks a collectible with the given perk and strength and gives the
/// caller one copy; returns the token id.
fn stock_and_give(c: &mut Collectibles, admin: Address, caller: Address, perk: u32, strength: u32) -> u128 {
    let token_id = c.stock_shop(admin, 10, perk, strength, 0, 0).unwrap();
    c.buy_collectible(caller, token_id, 1).unwrap();
    token_id
}

#[test]
fn test_burn_tiered_cash_strength_zero_rejected() {
    let (mut c, admin) = setup();
    let caller = CALLER;
    let token_id = c.stock_shop(admin, 1, 1, 1, 0, 0).unwrap();
    c.buy_collectible(caller, token_id, 1).unwrap();
    c.set_token_perk(admin, token_id, Perk::CashTiered, 0).unwrap();

    let result = c.burn_collectible_for_perk(caller, token_id);
    assert!(result.is_err(), "CashTiered with strength=0 must fail with InvalidStrength");
    assert_eq!(result, Err(CollectibleError::InvalidStrength));
}

#[test]
fn test_burn_tiered_cash_strength_six_rejected() {
    let (mut c, admin) = setup();
    let caller = CALLER;
    let token_id = c.stock_shop(admin, 1, 1, 1, 0, 0).unwrap();
    c.buy_collectible(caller, token_id, 1).unwrap();
    c.set_token_perk(admin, token_id, Perk::CashTiered, 6).unwrap();

    let result = c.burn_collectible_for_perk(caller, token_id);
    assert!(result.is_err(), "CashTiered with strength=6 must fail with InvalidStrength");
    assert_eq!(result, Err(CollectibleError::InvalidStrength));
}

#[test]
fn test_burn_tiered_cash_all_valid_strengths() {
    for strength in 1u32..=5 {
        let (mut c, admin) = setup();
        let caller = CALLER;
        let token_id = c.stock_shop(admin, 10, 1, strength, 0, 0).unwrap();
        c.buy_collectible(caller, token_id, 1).unwrap();

        let result = c.burn_collectible_for_perk(caller, token_id);
        assert!(result.is_ok(), "CashTiered with strength={} must succeed", strength);
        assert_eq!(
            c.balance_of(caller, token_id),
            0,
            "Balance must be 0 after burn for strength={}",
            strength
        );
    }
}

#[test]
fn test_burn_tiered_tax_refund_strength_zero_rejected() {
    let (mut c, admin) = setup();
    let caller = CALLER;
    let token_id = c.stock_shop(admin, 1, 2, 1, 0, 0).unwrap();
    c.buy_collectible(caller, token_id, 1).unwrap();
    c.set_token_perk(admin, token_id, Perk::TaxRefund, 0).unwrap();

    let result = c.burn_collectible_for_perk(caller, token_id);
    assert!(result.is_err(), "TaxRefund with strength=0 must fail with InvalidStrength");
}

#[test]
fn test_burn_tiered_tax_refund_strength_six_rejected() {
    let (mut c, admin) = setup();
    let caller = CALLER;
    let token_id = c.stock_shop(admin, 1, 2, 1, 0, 0).unwrap();
    c.buy_collectible(caller, token_id, 1).unwrap();
    c.set_token_perk(admin, token_id, Perk::TaxRefund, 6).unwrap();

    let result = c.burn_collectible_for_perk(caller, token_id);
    assert!(result.is_err(), "TaxRefund with strength=6 must fail with InvalidStrength");
}

#[test]
fn test_burn_tiered_tax_refund_all_valid_strengths() {
    for strength in 1u32..=5 {
        let (mut c, admin) = setup();
        let caller = CALLER;
        let token_id = c.stock_shop(admin, 10, 2, strength, 0, 0).unwrap();
        c.buy_collectible(caller, token_id, 1).unwrap();

        let result = c.burn_collectible_for_perk(caller, token_id);
        assert!(result.is_ok(), "TaxRefund with strength={} must succeed", strength);
        assert_eq!(
            c.balance_of(caller, token_id),
            0,
            "Balance must be 0 after burn for TaxRefund strength={}",
            strength
        );
    }
}

#[test]
fn test_burn_non_tiered_perks_strength_zero_succeeds() {
    let non_tiered: &[(u32, Perk)] = &[
        (3, Perk::RentBoost),
        (4, Perk::PropertyDiscount),
        (5, Perk::ExtraTurn),
        (6, Perk::JailFree),
        (7, Perk::DoubleRent),
        (8, Perk::RollBoost),
        (9, Perk::Teleport),
        (10, Perk::Shield),
        (11, Perk::RollExact),
    ];

    for (perk_val, perk_enum) in non_tiered {
        let (mut c, admin) = setup();
        let caller = CALLER;
        let token_id = c.stock_shop(admin, 5, *perk_val, 0, 0, 0).unwrap();
        c.buy_collectible(caller, token_id, 1).unwrap();

        assert_eq!(
            c.get_token_perk(token_id),
            *perk_enum,
            "Perk enum mismatch for perk_val={}",
            perk_val
        );

        let result = c.burn_collectible_for_perk(caller, token_id);
        assert!(result.is_ok(), "Non-tiered perk={} with strength=0 must succeed", perk_val);
        assert_eq!(
            c.balance_of(caller, token_id),
            0,
            "Token must be burned for perk={}",
            perk_val
        );
    }
}

#[test]
fn test_burn_non_tiered_perks_strength_five_succeeds() {
    let non_tiered: &[u32] = &[3, 4, 5, 6, 7, 8, 9, 10, 11];

    for &perk_val in non_tiered {
        let (mut c, admin) = setup();
        let caller = CALLER;
        let token_id = c.stock_shop(admin, 5, perk_val, 5, 0, 0).unwrap();
        c.buy_collectible(caller, token_id, 1).unwrap();

        let result = c.burn_collectible_for_perk(caller, token_id);
        assert!(result.is_ok(), "Non-tiered perk={} with strength=5 must succeed", perk_val);
        assert_eq!(c.balance_of(caller, token_id), 0);
    }
}

#[test]
fn test_burn_perk_none_rejected() {
    let (mut c, admin) = setup();
    let caller = CALLER;
    c.buy_collectible(caller, 42, 1).unwrap();
    c.set_token_perk(admin, 42, Perk::NoPerk, 0).unwrap();

    let result = c.burn_collectible_for_perk(caller, 42);
    assert!(result.is_err(), "Perk::None must be rejected with InvalidPerk");
    assert_eq!(result, Err(CollectibleError::InvalidPerk));
    assert_eq!(c.balance_of(caller, 42), 1);
}

#[test]
fn test_burn_paused_contract_rejected() {
    let (mut c, admin) = setup();
    let caller = CALLER;
    let token_id = c.stock_shop(admin, 5, 1, 3, 0, 0).unwrap();
    c.buy_collectible(caller, token_id, 1).unwrap();

    c.set_pause(admin, true).unwrap();

    let result = c.burn_collectible_for_perk(caller, token_id);
    assert!(result.is_err(), "Paused contract must reject burn");
    assert_eq!(result, Err(CollectibleError::ContractPaused));
    assert_eq!(c.balance_of(caller, token_id), 1);
}

#[test]
fn test_burn_insufficient_balance_rejected() {
    let (mut c, admin) = setup();
    let caller = CALLER;
    let token_id = c.stock_shop(admin, 5, 1, 2, 0, 0).unwrap();

    let result = c.burn_collectible_for_perk(caller, token_id);
    assert!(result.is_err(), "Zero balance must return InsufficientBalance");
    assert_eq!(result, Err(CollectibleError::InsufficientBalance));
}

#[test]
fn test_burn_multiple_copies_tiered_perk() {
    let (mut c, admin) = setup();
    let caller = CALLER;
    let token_id = c.stock_shop(admin, 5, 1, 3, 0, 0).unwrap();
    c.buy_collectible(caller, token_id, 3).unwrap();
    assert_eq!(c.balance_of(caller, token_id), 3);

    c.burn_collectible_for_perk(caller, token_id).unwrap();
    assert_eq!(c.balance_of(caller, token_id), 2);

    c.burn_collectible_for_perk(caller, token_id).unwrap();
    assert_eq!(c.balance_of(caller, token_id), 1);

    c.burn_collectible_for_perk(caller, token_id).unwrap();
    assert_eq!(c.balance_of(caller, token_id), 0);

    let result = c.burn_collectible_for_perk(caller, token_id);
    assert!(result.is_err(), "Fourth burn with empty balance must fail");
}

#[test]
fn test_burn_tiered_cash_strength_boundary_lower() {
    let (mut c, admin) = setup();
    let caller = CALLER;
    let token_id = c.stock_shop(admin, 5, 1, 1, 0, 0).unwrap();
    c.buy_collectible(caller, token_id, 1).unwrap();

    assert!(c.burn_collectible_for_perk(caller, token_id).is_ok());
    assert_eq!(c.balance_of(caller, token_id), 0);
}

#[test]
fn test_burn_tiered_cash_strength_boundary_upper() {
    let (mut c, admin) = setup();
    let caller = CALLER;
    let token_id = c.stock_shop(admin, 5, 1, 5, 0, 0).unwrap();
    c.buy_collectible(caller, token_id, 1).unwrap();

    assert!(c.burn_collectible_for_perk(caller, token_id).is_ok());
    assert_eq!(c.balance_of(caller, token_id), 0);
}

#[test]
fn test_burn_tiered_cash_strength_one_above_upper_boundary() {
    let (mut c, admin) = setup();
    let caller = CALLER;
    let token_id = c.stock_shop(admin, 5, 1, 1, 0, 0).unwrap();
    c.buy_collectible(caller, token_id, 1).unwrap();
    c.set_token_perk(admin, token_id, Perk::CashTiered, 6).unwrap();

    let result = c.burn_collectible_for_perk(caller, token_id);
    assert!(result.is_err());
    assert_eq!(c.balance_of(caller, token_id), 1);
}

#[test]
fn stock_and_give_returns_a_held_token() {
    let (mut c, admin) = setup();
    let token_id = stock_and_give(&mut c, admin, CALLER, 4, 0);
    assert_eq!(c.balance_of(CALLER, token_id), 1);
    assert_eq!(c.get_token_perk(token_id), Perk::PropertyDiscount);
}
