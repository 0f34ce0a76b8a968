//! Concrete instances of the library's laws, its formulas and each refusal.

use tycoon::boost::{additive, multiplicative, BoostError, BoostSystem, BASE_BOOST};
use tycoon::collectibles::{CollectibleError, Collectibles, Perk, PerkActivation};
use tycoon::ledger::{LedgerError, MultiTokenLedger};
use tycoon::token::{TokenError, TycoonToken};
use tycoon::Address;

const ADMIN: Address = 1;
const CONTRACT: Address = 100;

fn token(id: Address, supply: i128) -> TycoonToken {
    let mut t = TycoonToken::new(id);
    t.initialize(ADMIN, supply).unwrap();
    t
}

fn collectibles() -> Collectibles {
    let mut c = Collectibles::new(CONTRACT);
    c.initialize(ADMIN).unwrap();
    c
}

// ── token ────────────────────────────────────────────────────────────────────

#[test]
fn token_metadata() {
    let t = token(300, 0);
    assert_eq!(t.name(), "Tycoon");
    assert_eq!(t.symbol(), "TYC");
    assert_eq!(t.decimals(), 18);
}

#[test]
fn token_supply_equals_sum_of_balances_after_transfers() {
    let mut t = token(300, 1_000);
    t.transfer(ADMIN, 2, 300).unwrap();
    t.transfer(2, 3, 100).unwrap();
    t.transfer(3, 3, 50).unwrap();
    assert_eq!(t.total_supply(), 1_000);
    assert_eq!(t.balance(ADMIN) + t.balance(2) + t.balance(3), t.total_supply());
    assert_eq!(t.balance(2), 200);
    assert_eq!(t.balance(3), 100);
}

#[test]
fn token_refusals() {
    let mut t = token(300, 100);
    assert_eq!(t.initialize(ADMIN, 5), Err(TokenError::AlreadyInitialized));
    assert_eq!(t.transfer(ADMIN, 2, -1), Err(TokenError::NegativeAmount));
    assert_eq!(t.transfer(ADMIN, 2, 101), Err(TokenError::InsufficientBalance));
    assert_eq!(t.burn(2, 1), Err(TokenError::InsufficientBalance));
    assert_eq!(t.mint(2, 2, 1), Err(TokenError::Unauthorized));
    assert_eq!(t.mint(ADMIN, 2, i128::MAX), Err(TokenError::Overflow));
    let mut fresh = TycoonToken::new(301);
    assert_eq!(fresh.mint(ADMIN, 2, 1), Err(TokenError::NotInitialized));
    assert_eq!(fresh.set_admin(ADMIN, 2), Err(TokenError::NotInitialized));
    assert_eq!(t.total_supply(), 100);
    assert_eq!(t.balance(ADMIN), 100);
}

#[test]
fn allowance_spend_and_expiry() {
    let mut t = token(300, 1_000);
    let spender: Address = 7;
    let to: Address = 8;
    t.approve(ADMIN, spender, 300, 50, 10).unwrap();
    assert_eq!(t.allowance(ADMIN, spender, 10), 300);
    assert_eq!(t.allowance(ADMIN, spender, 50), 300);
    assert_eq!(t.allowance(ADMIN, spender, 51), 0);

    assert_eq!(t.transfer_from(spender, ADMIN, to, 301, 10), Err(TokenError::InsufficientAllowance));
    t.transfer_from(spender, ADMIN, to, 200, 10).unwrap();
    assert_eq!(t.allowance(ADMIN, spender, 10), 100);
    assert_eq!(t.balance(to), 200);
    assert_eq!(t.total_supply(), 1_000);

    t.burn_from(spender, ADMIN, 100, 20).unwrap();
    assert_eq!(t.allowance(ADMIN, spender, 20), 0);
    assert_eq!(t.total_supply(), 900);
    assert_eq!(t.balance(ADMIN), 700);

    assert_eq!(t.transfer_from(spender, ADMIN, to, 1, 60), Err(TokenError::InsufficientAllowance));
    assert_eq!(t.approve(ADMIN, spender, 5, 9, 10), Err(TokenError::InvalidExpiration));
    assert_eq!(t.approve(ADMIN, spender, -5, 90, 10), Err(TokenError::NegativeAmount));
    t.approve(ADMIN, spender, 0, 0, 10).unwrap();
}

#[test]
fn allowance_cannot_overdraw_balance() {
    let mut t = token(300, 10);
    t.approve(ADMIN, 7, 100, 100, 1).unwrap();
    assert_eq!(t.transfer_from(7, ADMIN, 8, 11, 1), Err(TokenError::InsufficientBalance));
    assert_eq!(t.allowance(ADMIN, 7, 1), 100);
}

// ── multi-token ledger ───────────────────────────────────────────────────────

#[test]
fn ledger_round_trip_and_counts() {
    let mut l = MultiTokenLedger::new();
    l.mint(5, 1, 3).unwrap();
    l.mint(5, 2, 1).unwrap();
    assert_eq!(l.owned_token_count(5), 2);
    l.burn(5, 1, 3).unwrap();
    assert_eq!(l.owned_token_count(5), 1);
    assert_eq!(l.tokens_of(5), vec![2]);
    assert_eq!(l.burn(5, 2, 2), Err(LedgerError::InsufficientBalance));
    assert_eq!(l.mint(5, 2, u64::MAX), Err(LedgerError::Overflow));
    l.transfer(5, 6, 2, 1).unwrap();
    assert_eq!(l.balance_of(5, 2), 0);
    assert_eq!(l.balance_of(6, 2), 1);
    assert_eq!(l.owned_token_count(5), 0);
    assert_eq!(l.owned_token_count(6), 1);
}

// ── boosts ───────────────────────────────────────────────────────────────────

#[test]
fn multiplicative_then_additive_formula() {
    let mut sys = BoostSystem::new();
    sys.initialize(ADMIN).unwrap();
    sys.add_boost(ADMIN, 2, multiplicative(1, 15000, 0), 0).unwrap();
    sys.add_boost(ADMIN, 2, additive(2, 1000, 0), 0).unwrap();
    // 15000 * (10000 + 1000) / 10000
    assert_eq!(sys.calculate_total_boost(2, 5).unwrap(), 16500);
    sys.add_boost(ADMIN, 2, multiplicative(3, 5000, 0), 0).unwrap();
    // 10000 * 1.5 * 0.5 = 7500; 7500 * 1.1 = 8250
    assert_eq!(sys.calculate_total_boost(2, 5).unwrap(), 8250);
}

#[test]
fn boost_refusals() {
    let mut sys = BoostSystem::new();
    assert_eq!(sys.add_boost(ADMIN, 2, additive(1, 10, 0), 0), Err(BoostError::NotInitialized));
    sys.initialize(ADMIN).unwrap();
    assert_eq!(sys.add_boost(2, 2, additive(1, 10, 0), 0), Err(BoostError::Unauthorized));
    assert_eq!(sys.initialize(ADMIN), Err(BoostError::AlreadyInitialized));
    assert_eq!(sys.add_boost(ADMIN, 2, additive(1, 10, 5), 5), Err(BoostError::InvalidExpiry));
    assert_eq!(sys.get_boosts(2).len(), 0);
    sys.add_boost(ADMIN, 2, multiplicative(1, u32::MAX, 0), 0).unwrap();
    sys.add_boost(ADMIN, 2, multiplicative(2, u32::MAX, 0), 0).unwrap();
    assert_eq!(sys.calculate_total_boost(2, 0), Err(BoostError::Overflow));
}

#[test]
fn prune_keeps_total_at_that_ledger() {
    let mut sys = BoostSystem::new();
    sys.initialize(ADMIN).unwrap();
    sys.add_boost(ADMIN, 2, additive(1, 700, 20), 1).unwrap();
    sys.add_boost(ADMIN, 2, multiplicative(2, 20000, 30), 1).unwrap();
    sys.add_boost(ADMIN, 2, additive(3, 300, 0), 1).unwrap();
    let before = sys.calculate_total_boost(2, 25).unwrap();
    assert_eq!(sys.prune_expired_boosts(2, 25), 1);
    assert_eq!(sys.calculate_total_boost(2, 25).unwrap(), before);
    assert_eq!(before, 20600);
    assert_eq!(sys.get_boosts(2).len(), 2);
    assert_eq!(BASE_BOOST, 10000);
}

// ── collectibles ─────────────────────────────────────────────────────────────

#[test]
fn perk_codes_round_trip() {
    for code in 0u32..=11 {
        assert_eq!(Perk::from_code(code).unwrap().code(), code);
    }
    assert_eq!(Perk::from_code(12), None);
    assert!(Perk::CashTiered.is_tiered());
    assert!(Perk::TaxRefund.is_tiered());
    assert!(!Perk::Shield.is_tiered());
}

#[test]
fn collectible_refusals() {
    let mut fresh = Collectibles::new(CONTRACT);
    assert_eq!(fresh.set_pause(ADMIN, true), Err(CollectibleError::NotInitialized));
    assert_eq!(fresh.backend_mint(ADMIN, 2, 1, 1), Err(CollectibleError::NotInitialized));

    let mut c = collectibles();
    assert_eq!(c.initialize(ADMIN), Err(CollectibleError::AlreadyInitialized));
    assert_eq!(c.set_pause(2, true), Err(CollectibleError::Unauthorized));
    assert_eq!(c.stock_shop(ADMIN, 1, 12, 0, 1, 1), Err(CollectibleError::InvalidPerk));
    assert_eq!(c.stock_shop(ADMIN, 1, 1, 0, 1, 1), Err(CollectibleError::InvalidStrength));
    assert_eq!(c.stock_shop(ADMIN, 1, 2, 6, 1, 1), Err(CollectibleError::InvalidStrength));
    assert_eq!(c.stock_shop(ADMIN, 1, 3, 0, u128::MAX, 1), Err(CollectibleError::Overflow));
    assert_eq!(c.mint_collectible(ADMIN, 2, 99, 1), Err(CollectibleError::InvalidPerk));
    assert_eq!(c.mint_collectible(ADMIN, 2, 1, 9), Err(CollectibleError::InvalidStrength));
    assert_eq!(c.mint_collectible(2, 2, 0, 1), Err(CollectibleError::Unauthorized));
    assert_eq!(c.restock_collectible(ADMIN, 77, 1), Err(CollectibleError::TokenNotFound));
    assert_eq!(
        c.set_fee_config(ADMIN, 6000, 3000, 1001, 50, 51),
        Err(CollectibleError::InvalidFeeConfig)
    );
    assert_eq!(c.burn(2, 1, 1), Err(CollectibleError::InsufficientBalance));
    assert_eq!(c.transfer(2, 3, 1, 1), Err(CollectibleError::InsufficientBalance));
    c.buy_collectible(2, 5, u64::MAX).unwrap();
    assert_eq!(c.buy_collectible(2, 5, 1), Err(CollectibleError::Overflow));
    assert_eq!(c.get_next_token_id(), 1);
}

#[test]
fn purchase_without_funds_changes_nothing() {
    let mut c = collectibles();
    let mut tyc = token(200, 0);
    let mut usdc = token(201, 0);
    c.init_shop(ADMIN, 200, 201).unwrap();
    let id = c.stock_shop(ADMIN, 2, 4, 0, 100, 0).unwrap();
    tyc.mint(ADMIN, 9, 99).unwrap();
    assert_eq!(
        c.buy_collectible_from_shop(9, id, false, &mut tyc, &mut usdc),
        Err(CollectibleError::InsufficientFunds)
    );
    assert_eq!(c.get_stock(id), 2);
    assert_eq!(c.balance_of(9, id), 0);
    assert_eq!(tyc.balance(9), 99);
    // USDC price is zero for this listing.
    usdc.mint(ADMIN, 9, 1_000).unwrap();
    assert_eq!(
        c.buy_collectible_from_shop(9, id, true, &mut tyc, &mut usdc),
        Err(CollectibleError::ZeroPrice)
    );
}

#[test]
fn fee_shares_round_down_and_residue_stays_with_contract() {
    let mut c = collectibles();
    let mut tyc = token(200, 0);
    let mut usdc = token(201, 0);
    c.init_shop(ADMIN, 200, 201).unwrap();
    c.set_fee_config(ADMIN, 333, 333, 333, 50, 51).unwrap();
    let id = c.stock_shop(ADMIN, 1, 4, 0, 1_001, 0).unwrap();
    tyc.mint(ADMIN, 9, 1_001).unwrap();
    assert_eq!(c.buy_collectible_from_shop(9, id, false, &mut tyc, &mut usdc), Ok(1_001));
    // 1001 * 333 / 10000 = 33 for each share.
    assert_eq!(tyc.balance(50), 33);
    assert_eq!(tyc.balance(ADMIN), 33);
    assert_eq!(tyc.balance(51), 33);
    assert_eq!(tyc.balance(CONTRACT), 1_001 - 99);
    assert_eq!(tyc.balance(9), 0);
    assert_eq!(tyc.total_supply(), 1_001);
}

#[test]
fn perk_burn_reports_activation() {
    let mut c = collectibles();
    let id = c.mint_collectible(ADMIN, 2, 2, 4).unwrap();
    assert_eq!(
        c.burn_collectible_for_perk(2, id),
        Ok(PerkActivation { token_id: id, perk: Perk::TaxRefund, strength: 4 })
    );
    assert_eq!(c.owned_token_count(2), 0);
}

#[test]
fn backend_minter_may_mint_fresh_ids() {
    let mut c = collectibles();
    c.set_backend_minter(ADMIN, 2).unwrap();
    let id1 = c.mint_collectible(2, 3, 7, 0).unwrap();
    let id2 = c.stock_shop(ADMIN, 4, 8, 0, 10, 20).unwrap();
    assert_eq!(id1, 1);
    assert_eq!(id2, 2);
    assert_eq!(c.get_next_token_id(), 3);
    assert_eq!(c.get_token_perk(id1), Perk::DoubleRent);
    assert_eq!(c.get_token_perk(id2), Perk::RollBoost);
    let price = c.get_price(id2).unwrap();
    assert_eq!((price.tyc, price.usdc), (10, 20));
}


// ── keeping state between calls ──────────────────────────────────────────────

#[test]
fn collectibles_parts_round_trip() {
    let mut c = collectibles();
    c.set_backend_minter(ADMIN, 2).unwrap();
    c.init_shop(ADMIN, 200, 201).unwrap();
    c.set_fee_config(ADMIN, 100, 200, 300, 50, 51).unwrap();
    let id = c.stock_shop(ADMIN, 4, 1, 3, 10, 20).unwrap();
    c.buy_collectible(9, id, 2).unwrap();
    c.set_pause(ADMIN, true).unwrap();
    let parts = c.into_parts();
    assert_eq!(parts.balances, vec![((9, id), 2)]);
    let c2 = Collectibles::from_parts(parts).unwrap();
    assert!(c2.is_contract_paused());
    assert_eq!(c2.balance_of(9, id), 2);
    assert_eq!(c2.get_stock(id), 4);
    assert_eq!(c2.get_token_perk(id), Perk::CashTiered);
    assert_eq!(c2.get_token_strength(id), 3);
    assert_eq!(c2.get_backend_minter(), Some(2));
    assert_eq!(c2.get_next_token_id(), id + 1);
}

#[test]
fn inconsistent_parts_are_refused() {
    let mut parts = collectibles().into_parts();
    parts.balances = vec![((9, 1), 2), ((9, 1), 3)];
    assert!(Collectibles::from_parts(parts).is_none());
    let mut parts = collectibles().into_parts();
    parts.balances = vec![((9, 1), 0)];
    assert!(Collectibles::from_parts(parts).is_none());

    let mut t = token(300, 100).into_parts();
    t.supply = 99;
    assert!(TycoonToken::from_parts(t).is_none());
    let t = token(300, 100).into_parts();
    let t2 = TycoonToken::from_parts(t).unwrap();
    assert_eq!(t2.balance(ADMIN), 100);
    assert_eq!(t2.total_supply(), 100);
}

#[test]
fn sale_lists_the_settling_transfers() {
    let mut c = collectibles();
    c.init_shop(ADMIN, 200, 201).unwrap();
    c.set_fee_config(ADMIN, 1000, 500, 500, 50, 51).unwrap();
    let id = c.stock_shop(ADMIN, 2, 4, 0, 0, 1_000).unwrap();
    assert_eq!(c.sell_from_shop(9, id, true, 999).err(), Some(CollectibleError::InsufficientFunds));
    let sale = c.sell_from_shop(9, id, true, 1_000).unwrap();
    assert_eq!(sale.price, 1_000);
    assert_eq!(sale.currency, 201);
    let flows: Vec<(Address, Address, i128)> = sale.payments.iter().map(|p| (p.from, p.to, p.amount)).collect();
    assert_eq!(flows, vec![(9, CONTRACT, 1_000), (CONTRACT, 50, 100), (CONTRACT, ADMIN, 50), (CONTRACT, 51, 50)]);
    assert_eq!(c.get_stock(id), 1);
    assert_eq!(c.balance_of(9, id), 1);
}

#[test]
fn spending_an_allowance_touches_only_that_pair() {
    let mut t = token(300, 1_000);
    t.approve(ADMIN, 7, 300, 50, 10).unwrap();
    t.approve(ADMIN, 8, 40, 20, 10).unwrap();
    t.transfer_from(7, ADMIN, 9, 100, 10).unwrap();
    // The spent pair keeps its expiration; the other pair is untouched.
    assert_eq!(t.allowance(ADMIN, 7, 50), 200);
    assert_eq!(t.allowance(ADMIN, 7, 51), 0);
    assert_eq!(t.allowance(ADMIN, 8, 20), 40);
    t.burn_from(7, ADMIN, 50, 10).unwrap();
    assert_eq!(t.allowance(ADMIN, 7, 50), 150);
    assert_eq!(t.allowance(ADMIN, 8, 20), 40);
    assert_eq!(t.admin(), Some(ADMIN));
}

#[test]
fn overflow_refusals_name_overflow() {
    let mut fresh = TycoonToken::new(302);
    fresh.initialize(ADMIN, i128::MAX).unwrap();
    assert_eq!(fresh.mint(ADMIN, 2, 1), Err(TokenError::Overflow));
    assert_eq!(fresh.mint(ADMIN, 2, -1), Err(TokenError::NegativeAmount));
    let mut neg = TycoonToken::new(303);
    assert_eq!(neg.initialize(ADMIN, -1), Err(TokenError::NegativeAmount));
    assert_eq!(neg.admin(), None);

    let mut c = collectibles();
    let id = c.stock_shop(ADMIN, u64::MAX, 4, 0, 10, 10).unwrap();
    assert_eq!(c.restock_collectible(ADMIN, id, 1), Err(CollectibleError::Overflow));
    c.backend_mint(ADMIN, 2, id, u64::MAX).unwrap();
    assert_eq!(c.backend_mint(ADMIN, 2, id, 1), Err(CollectibleError::Overflow));
    c.buy_collectible(3, id, 1).unwrap();
    assert_eq!(c.transfer(3, 2, id, 1), Err(CollectibleError::Overflow));
    assert_eq!(c.balance_of(3, id), 1);
}

#[test]
fn refused_boost_setup_keeps_the_admin() {
    let mut b = BoostSystem::new();
    b.initialize(ADMIN).unwrap();
    assert_eq!(b.initialize(2), Err(BoostError::AlreadyInitialized));
    assert_eq!(b.admin(), Some(ADMIN));
}
