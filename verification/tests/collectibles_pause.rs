//! The pause flag: mutating entrypoints return `ContractPaused` while the
//! contract is paused; read-only queries keep working.

use tycoon::collectibles::{assert_paused_err, Collectibles, Perk};
use tycoon::token::TycoonToken;
use tycoon::Address;

const CONTRACT: Address = 100;
const ADMIN: Address = 1;

fn setup() -> (Collectibles, Address, Address) {
    let mut c = Collectibles::new(CONTRACT);
    c.initialize(ADMIN).unwrap();
    (c, ADMIN, CONTRACT)
}

fn make_token(id: Address, admin: Address) -> TycoonToken {
    let mut t = TycoonToken::new(id);
    t.initialize(admin, 0).unwrap();
    t
}

#[test]
fn test_stock_shop_blocked_when_paused() {
    let (mut c, admin, _) = setup();
    c.set_pause(admin, true).unwrap();
    assert!(assert_paused_err(&c.stock_shop(admin, 10, 1, 1, 100, 0)));
}

#[test]
fn test_stock_shop_allowed_after_unpause() {
    let (mut c, admin, _) = setup();
    c.set_pause(admin, true).unwrap();
    c.set_pause(admin, false).unwrap();
    let id = c.stock_shop(admin, 5, 3, 0, 50, 0).unwrap();
    assert_eq!(c.get_stock(id), 5);
}

#[test]
fn test_restock_blocked_when_paused() {
    let (mut c, admin, _) = setup();
    let id = c.stock_shop(admin, 5, 1, 1, 100, 0).unwrap();
    c.set_pause(admin, true).unwrap();
    assert!(assert_paused_err(&c.restock_collectible(admin, id, 5)));
}

#[test]
fn test_buy_from_shop_blocked_when_paused() {
    let (mut c, admin, _) = setup();
    let mut tyc = make_token(200, admin);
    let mut usdc = make_token(201, admin);
    c.init_shop(admin, tyc.contract_id(), usdc.contract_id()).unwrap();
    let id = c.stock_shop(admin, 5, 3, 0, 100, 0).unwrap();

    let buyer: Address = 10;
    tyc.mint(admin, buyer, 500).unwrap();

    c.set_pause(admin, true).unwrap();
    assert!(assert_paused_err(&c.buy_collectible_from_shop(buyer, id, false, &mut tyc, &mut usdc)));

    assert_eq!(c.balance_of(buyer, id), 0);
    assert_eq!(c.get_stock(id), 5);
}

#[test]
fn test_buy_from_shop_allowed_after_unpause() {
    let (mut c, admin, _) = setup();
    let mut tyc = make_token(200, admin);
    let mut usdc = make_token(201, admin);
    c.init_shop(admin, tyc.contract_id(), usdc.contract_id()).unwrap();
    let id = c.stock_shop(admin, 5, 3, 0, 100, 0).unwrap();

    let buyer: Address = 10;
    tyc.mint(admin, buyer, 500).unwrap();

    c.set_pause(admin, true).unwrap();
    c.set_pause(admin, false).unwrap();
    c.buy_collectible_from_shop(buyer, id, false, &mut tyc, &mut usdc).unwrap();
    assert_eq!(c.balance_of(buyer, id), 1);
}

#[test]
fn test_buy_collectible_blocked_when_paused() {
    let (mut c, admin, _) = setup();
    let buyer: Address = 10;
    c.set_pause(admin, true).unwrap();
    assert!(assert_paused_err(&c.buy_collectible(buyer, 1, 1)));
    assert_eq!(c.balance_of(buyer, 1), 0);
}

#[test]
fn test_transfer_blocked_when_paused() {
    let (mut c, admin, _) = setup();
    let alice: Address = 10;
    let bob: Address = 11;
    c.buy_collectible(alice, 1, 5).unwrap();

    c.set_pause(admin, true).unwrap();
    assert!(assert_paused_err(&c.transfer(alice, bob, 1, 2)));

    assert_eq!(c.balance_of(alice, 1), 5);
    assert_eq!(c.balance_of(bob, 1), 0);
}

#[test]
fn test_transfer_allowed_after_unpause() {
    let (mut c, admin, _) = setup();
    let alice: Address = 10;
    let bob: Address = 11;
    c.buy_collectible(alice, 1, 5).unwrap();

    c.set_pause(admin, true).unwrap();
    c.set_pause(admin, false).unwrap();
    c.transfer(alice, bob, 1, 3).unwrap();
    assert_eq!(c.balance_of(alice, 1), 2);
    assert_eq!(c.balance_of(bob, 1), 3);
}

#[test]
fn test_burn_blocked_when_paused() {
    let (mut c, admin, _) = setup();
    let user: Address = 10;
    c.buy_collectible(user, 1, 3).unwrap();

    c.set_pause(admin, true).unwrap();
    assert!(assert_paused_err(&c.burn(user, 1, 1)));
    assert_eq!(c.balance_of(user, 1), 3);
}

#[test]
fn test_burn_for_perk_blocked_when_paused() {
    let (mut c, admin, _) = setup();
    let user: Address = 10;
    c.buy_collectible(user, 1, 1).unwrap();
    c.set_token_perk(admin, 1, Perk::RentBoost, 1).unwrap();

    c.set_pause(admin, true).unwrap();
    assert!(assert_paused_err(&c.burn_collectible_for_perk(user, 1)));
    assert_eq!(c.balance_of(user, 1), 1);
}

#[test]
fn test_backend_mint_blocked_when_paused() {
    let (mut c, admin, _) = setup();
    let user: Address = 10;
    c.set_pause(admin, true).unwrap();
    assert!(assert_paused_err(&c.backend_mint(admin, user, 10, 1)));
    assert_eq!(c.balance_of(user, 10), 0);
}

#[test]
fn test_mint_collectible_blocked_when_paused() {
    let (mut c, admin, _) = setup();
    let user: Address = 10;
    c.set_pause(admin, true).unwrap();
    assert!(assert_paused_err(&c.mint_collectible(admin, user, 3, 1)));
}

#[test]
fn test_mint_collectible_allowed_after_unpause() {
    let (mut c, admin, _) = setup();
    let user: Address = 10;
    c.set_pause(admin, true).unwrap();
    c.set_pause(admin, false).unwrap();
    let id = c.mint_collectible(admin, user, 5, 1).unwrap();
    assert_eq!(c.balance_of(user, id), 1);
}

#[test]
fn test_read_queries_work_while_paused() {
    let (mut c, admin, _) = setup();
    let user: Address = 10;
    c.buy_collectible(user, 42, 7).unwrap();
    c.set_token_perk(admin, 42, Perk::Shield, 1).unwrap();

    c.set_pause(admin, true).unwrap();

    assert!(c.is_contract_paused());
    assert_eq!(c.balance_of(user, 42), 7);
    assert_eq!(c.get_token_perk(42), Perk::Shield);
    assert_eq!(c.owned_token_count(user), 1);
}

#[test]
fn test_pause_idempotent() {
    let (mut c, admin, _) = setup();
    c.set_pause(admin, true).unwrap();
    c.set_pause(admin, true).unwrap();
    assert!(c.is_contract_paused());

    c.set_pause(admin, false).unwrap();
    c.set_pause(admin, false).unwrap();
    assert!(!c.is_contract_paused());
}
