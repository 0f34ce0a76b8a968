//! Tycoon collectibles: semi-fungible game items that carry a perk and a
//! strength, sold from a shop priced in TYC or USDC, minted by the admin or
//! a backend minter, and burned to activate their perk. An admin can pause
//! every mutating entrypoint; read-only queries keep working while paused.
use vstd::prelude::*;

use crate::assoc::{unique_keys, AssocMap};
use crate::ledger::{balance_in, burned, minted, owned_in, LedgerError, MultiTokenLedger};
use crate::token::{transferred, TycoonToken};
use crate::Address;

verus! {

/// The lowest strength a tiered perk may carry.
pub const MIN_TIER_STRENGTH: u32 = 1;

/// The highest strength a tiered perk may carry.
pub const MAX_TIER_STRENGTH: u32 = 5;

/// Basis points in a whole.
pub const BPS_DENOMINATOR: u32 = 10000;

/// The effect a collectible grants when burned. Numbered 0 to 11 in the
/// order listed.
#[derive(Debug, Clone, Copy, PartialEq, Eq, Structural)]
pub enum Perk {
    NoPerk,
    CashTiered,
    TaxRefund,
    RentBoost,
    PropertyDiscount,
    ExtraTurn,
    JailFree,
    DoubleRent,
    RollBoost,
    Teleport,
    Shield,
    RollExact,
}

pub open spec fn perk_code(p: Perk) -> u32 {
    match p {
        Perk::NoPerk => 0,
        Perk::CashTiered => 1,
        Perk::TaxRefund => 2,
        Perk::RentBoost => 3,
        Perk::PropertyDiscount => 4,
        Perk::ExtraTurn => 5,
        Perk::JailFree => 6,
        Perk::DoubleRent => 7,
        Perk::RollBoost => 8,
        Perk::Teleport => 9,
        Perk::Shield => 10,
        Perk::RollExact => 11,
    }
}

/// The perk numbered `code`, if there is one.
pub open spec fn perk_of_code(code: u32) -> Option<Perk> {
    if code == 0 {
        Some(Perk::NoPerk)
    } else if code == 1 {
        Some(Perk::CashTiered)
    } else if code == 2 {
        Some(Perk::TaxRefund)
    } else if code == 3 {
        Some(Perk::RentBoost)
    } else if code == 4 {
        Some(Perk::PropertyDiscount)
    } else if code == 5 {
        Some(Perk::ExtraTurn)
    } else if code == 6 {
        Some(Perk::JailFree)
    } else if code == 7 {
        Some(Perk::DoubleRent)
    } else if code == 8 {
        Some(Perk::RollBoost)
    } else if code == 9 {
        Some(Perk::Teleport)
    } else if code == 10 {
        Some(Perk::Shield)
    } else if code == 11 {
        Some(Perk::RollExact)
    } else {
        None
    }
}

/// Tiered perks scale with their strength, which must lie in `1..=5`.
pub open spec fn spec_is_tiered(p: Perk) -> bool {
    p == Perk::CashTiered || p == Perk::TaxRefund
}

/// A strength is acceptable for a perk: any for untiered perks, `1..=5`
/// for tiered ones.
pub open spec fn strength_ok(p: Perk, strength: u32) -> bool {
    spec_is_tiered(p) ==> MIN_TIER_STRENGTH <= strength <= MAX_TIER_STRENGTH
}

impl Perk {
    pub fn from_code(code: u32) -> (r: Option<Perk>)
        ensures
            r == perk_of_code(code),
    {
        if code == 0 {
            Some(Perk::NoPerk)
        } else if code == 1 {
            Some(Perk::CashTiered)
        } else if code == 2 {
            Some(Perk::TaxRefund)
        } else if code == 3 {
            Some(Perk::RentBoost)
        } else if code == 4 {
            Some(Perk::PropertyDiscount)
        } else if code == 5 {
            Some(Perk::ExtraTurn)
        } else if code == 6 {
            Some(Perk::JailFree)
        } else if code == 7 {
            Some(Perk::DoubleRent)
        } else if code == 8 {
            Some(Perk::RollBoost)
        } else if code == 9 {
            Some(Perk::Teleport)
        } else if code == 10 {
            Some(Perk::Shield)
        } else if code == 11 {
            Some(Perk::RollExact)
        } else {
            None
        }
    }

    pub fn code(&self) -> (c: u32)
        ensures
            c == perk_code(*self),
    {
        match self {
            Perk::NoPerk => 0,
            Perk::CashTiered => 1,
            Perk::TaxRefund => 2,
            Perk::RentBoost => 3,
            Perk::PropertyDiscount => 4,
            Perk::ExtraTurn => 5,
            Perk::JailFree => 6,
            Perk::DoubleRent => 7,
            Perk::RollBoost => 8,
            Perk::Teleport => 9,
            Perk::Shield => 10,
            Perk::RollExact => 11,
        }
    }

    pub fn is_tiered(&self) -> (b: bool)
        ensures
            b == spec_is_tiered(*self),
    {
        match self {
            Perk::CashTiered | Perk::TaxRefund => true,
            _ => false,
        }
    }
}

/// Numbering perks and reading the number back agree.
pub proof fn law_perk_code_round_trip(p: Perk, code: u32)
    ensures
        perk_of_code(perk_code(p)) == Some(p),
        perk_of_code(code) matches Some(q) ==> perk_code(q) == code,
        perk_of_code(code) is Some <==> code <= 11,
{
}

/// Why a collectibles operation was refused.
#[derive(Debug, Clone, Copy, PartialEq, Eq, Structural)]
pub enum CollectibleError {
    AlreadyInitialized,
    NotInitialized,
    /// The caller may not perform this operation.
    Unauthorized,
    ContractPaused,
    ShopNotInitialized,
    /// The listing has no positive price in the chosen currency.
    ZeroPrice,
    InsufficientStock,
    InsufficientBalance,
    /// The perk number is unknown, or a perk burn found no perk.
    InvalidPerk,
    /// A tiered perk with a strength outside `1..=5`.
    InvalidStrength,
    /// The fee shares add up to more than the whole price.
    InvalidFeeConfig,
    /// The token id has no shop listing.
    TokenNotFound,
    /// The buyer cannot pay the price.
    InsufficientFunds,
    /// A counter or balance would overflow.
    Overflow,
}

/// The payment tokens the shop accepts.
#[derive(Debug, Clone, Copy, PartialEq, Eq, Structural)]
pub struct ShopTokens {
    pub tyc: Address,
    pub usdc: Address,
}

/// A shop listing's prices in each currency.
#[derive(Debug, Clone, Copy, PartialEq, Eq, Structural)]
pub struct Price {
    pub tyc: i128,
    pub usdc: i128,
}

/// How a sale's price is split: shares in basis points for the platform,
/// the creator (the admin, in the shop) and the pool; the rest stays with
/// the contract.
#[derive(Debug, Clone, Copy, PartialEq, Eq, Structural)]
pub struct FeeConfig {
    pub platform_bps: u32,
    pub creator_bps: u32,
    pub pool_bps: u32,
    pub platform: Address,
    pub pool: Address,
}

/// What burning a collectible for its perk activates.
#[derive(Debug, Clone, Copy, PartialEq, Eq, Structural)]
pub struct PerkActivation {
    pub token_id: u128,
    pub perk: Perk,
    pub strength: u32,
}

/// `bps` basis points of `price`, rounded down.
pub open spec fn share(price: int, bps: u32) -> int {
    price * bps / 10000
}

/// The abstract state of the collectibles contract.
pub ghost struct CollectiblesView {
    pub id: Address,
    pub admin: Option<Address>,
    pub paused: bool,
    pub minter: Option<Address>,
    pub shop: Option<ShopTokens>,
    pub fee: Option<FeeConfig>,
    pub next_token_id: u128,
    pub balances: Map<(Address, u128), u64>,
    pub perks: Map<u128, (Perk, u32)>,
    pub stock: Map<u128, u64>,
    pub prices: Map<u128, Price>,
}

impl CollectiblesView {
    pub open spec fn balance(self, owner: Address, token_id: u128) -> nat {
        balance_in(self.balances, owner, token_id)
    }

    pub open spec fn owned_count(self, owner: Address) -> nat {
        owned_in(self.balances, owner).len()
    }

    pub open spec fn stock_of(self, token_id: u128) -> nat {
        if self.stock.contains_key(token_id) {
            self.stock[token_id] as nat
        } else {
            0
        }
    }

    pub open spec fn perk_of(self, token_id: u128) -> Perk {
        if self.perks.contains_key(token_id) {
            self.perks[token_id].0
        } else {
            Perk::NoPerk
        }
    }

    pub open spec fn strength_of(self, token_id: u128) -> u32 {
        if self.perks.contains_key(token_id) {
            self.perks[token_id].1
        } else {
            0
        }
    }

    /// The listed price of `token_id` in the chosen currency, if listed.
    pub open spec fn price_in(self, token_id: u128, use_usdc: bool) -> Option<int> {
        if self.prices.contains_key(token_id) {
            Some(
                if use_usdc {
                    self.prices[token_id].usdc as int
                } else {
                    self.prices[token_id].tyc as int
                },
            )
        } else {
            None
        }
    }

    /// `caller` is the admin or the backend minter.
    pub open spec fn may_mint(self, caller: Address) -> bool {
        self.admin == Some(caller) || self.minter == Some(caller)
    }

    /// The error an admin-only entrypoint gives `caller`, if any.
    pub open spec fn admin_error(self, caller: Address) -> Option<CollectibleError> {
        if self.admin is None {
            Some(CollectibleError::NotInitialized)
        } else if self.admin != Some(caller) {
            Some(CollectibleError::Unauthorized)
        } else {
            None
        }
    }
}

/// How a sale paid at `price` changes the payment-token balance of `a`:
/// the buyer pays the price to the contract, which passes the platform,
/// creator (admin) and pool shares on and keeps the rest.
pub open spec fn payment_delta(
    buyer: Address,
    contract: Address,
    admin: Address,
    fee: Option<FeeConfig>,
    price: int,
    a: Address,
) -> int {
    let (p, c, q, platform, pool) = match fee {
        Some(f) => (share(price, f.platform_bps), share(price, f.creator_bps), share(price, f.pool_bps), f.platform, f.pool),
        None => (0int, 0int, 0int, contract, contract),
    };
    -(if a == buyer {
        price
    } else {
        0
    }) + (if a == contract {
        price - p - c - q
    } else {
        0
    }) + (if a == platform {
        p
    } else {
        0
    }) + (if a == admin {
        c
    } else {
        0
    }) + (if a == pool {
        q
    } else {
        0
    })
}

/// `after` is `before` once the buyer has paid `price` to the contract and
/// the contract has paid out the fee shares.
pub open spec fn paid(
    before: TycoonToken,
    after: TycoonToken,
    buyer: Address,
    contract: Address,
    admin: Address,
    fee: Option<FeeConfig>,
    price: int,
) -> bool {
    &&& after.supply() == before.supply()
    &&& after.id() == before.id()
    &&& after.admin_spec() == before.admin_spec()
    &&& forall|a: Address| #[trigger] after.balance_spec(a) == before.balance_spec(a) + payment_delta(
        buyer,
        contract,
        admin,
        fee,
        price,
        a,
    )
}

/// One token transfer that settles part of a sale.
#[derive(Debug, Clone, Copy, PartialEq, Eq, Structural)]
pub struct Payment {
    pub from: Address,
    pub to: Address,
    pub amount: i128,
}

/// A sale the shop accepted: the price, the token it is paid in, and the
/// transfers that settle it, in order.
pub struct Sale {
    pub price: i128,
    pub currency: Address,
    pub payments: Vec<Payment>,
}

/// The transfers that settle a sale at `price`: the buyer pays the contract,
/// then the contract pays the platform, the admin and the pool their shares.
pub open spec fn sale_plan(
    buyer: Address,
    contract: Address,
    admin: Address,
    fee: Option<FeeConfig>,
    price: int,
) -> Seq<Payment> {
    let first = Payment { from: buyer, to: contract, amount: price as i128 };
    match fee {
        None => seq![first],
        Some(f) => seq![
            first,
            Payment { from: contract, to: f.platform, amount: share(price, f.platform_bps) as i128 },
            Payment { from: contract, to: admin, amount: share(price, f.creator_bps) as i128 },
            Payment { from: contract, to: f.pool, amount: share(price, f.pool_bps) as i128 },
        ],
    }
}

/// What a list of transfers, made in order, adds to (or takes from) the
/// balance of `a`.
pub open spec fn net_flow(plan: Seq<Payment>, a: Address) -> int
    decreases plan.len(),
{
    if plan.len() == 0 {
        0
    } else {
        let t = plan.last();
        net_flow(plan.drop_last(), a) - (if t.from == a {
            t.amount as int
        } else {
            0
        }) + (if t.to == a {
            t.amount as int
        } else {
            0
        })
    }
}

/// Making the transfers of a sale's plan changes every balance exactly as
/// the sale is specified to.
pub proof fn law_sale_plan_settles(
    buyer: Address,
    contract: Address,
    admin: Address,
    fee: Option<FeeConfig>,
    price: i128,
    a: Address,
)
    requires
        price > 0,
        fee matches Some(f) ==> f.platform_bps + f.creator_bps + f.pool_bps <= 10000,
    ensures
        net_flow(sale_plan(buyer, contract, admin, fee, price as int), a) == payment_delta(
            buyer,
            contract,
            admin,
            fee,
            price as int,
            a,
        ),
{
    let plan = sale_plan(buyer, contract, admin, fee, price as int);
    match fee {
        None => {
            assert(plan.drop_last() =~= Seq::<Payment>::empty());
            assert(net_flow(plan.drop_last(), a) == 0);
            assert(plan.last() == Payment { from: buyer, to: contract, amount: price });
            assert(net_flow(plan, a) == -(if buyer == a { price as int } else { 0 }) + (if contract == a { price as int } else { 0 }));
            assert(payment_delta(buyer, contract, admin, fee, price as int, a) == -(if buyer == a { price as int } else { 0 }) + (if contract == a { price as int } else { 0 }));
        },
        Some(f) => {
            lemma_shares_fit(price as int, f.platform_bps, f.creator_bps, f.pool_bps);
            let p1 = plan.drop_last();
            let p2 = p1.drop_last();
            let p3 = p2.drop_last();
            assert(p3.drop_last() =~= Seq::<Payment>::empty());
            assert(p3 =~= seq![plan[0]]);
            assert(net_flow(p3.drop_last(), a) == 0);
            assert(p3.last() == plan[0]);
            assert(plan[0] == Payment { from: buyer, to: contract, amount: price });
            let pp = share(price as int, f.platform_bps);
            let cc = share(price as int, f.creator_bps);
            let qq = share(price as int, f.pool_bps);
            assert(net_flow(p3, a) == -(if buyer == a { price as int } else { 0 }) + (if contract == a { price as int } else { 0 }));
            assert(net_flow(p2, a) == net_flow(p3, a) - (if contract == a { pp } else { 0 }) + (if f.platform == a { pp } else { 0 }));
            assert(net_flow(p1, a) == net_flow(p2, a) - (if contract == a { cc } else { 0 }) + (if admin == a { cc } else { 0 }));
            assert(net_flow(plan, a) == net_flow(p1, a) - (if contract == a { qq } else { 0 }) + (if f.pool == a { qq } else { 0 }));
        },
    }
}

/// A sale under a fee config whose recipients are distinct from each other,
/// from the buyer and from the contract pays each its own share, rounded
/// down: the platform `price * platform_bps / 10000`, the admin (as creator)
/// `price * creator_bps / 10000` and the pool `price * pool_bps / 10000`.
/// The buyer pays the whole price and the contract keeps what is left.
pub proof fn law_sale_pays_each_share(
    before: TycoonToken,
    after: TycoonToken,
    buyer: Address,
    contract: Address,
    admin: Address,
    f: FeeConfig,
    price: int,
)
    requires
        paid(before, after, buyer, contract, admin, Some(f), price),
        buyer != contract,
        buyer != admin,
        buyer != f.platform,
        buyer != f.pool,
        contract != admin,
        contract != f.platform,
        contract != f.pool,
        admin != f.platform,
        admin != f.pool,
        f.platform != f.pool,
    ensures
        after.balance_spec(buyer) == before.balance_spec(buyer) - price,
        after.balance_spec(f.platform) == before.balance_spec(f.platform) + price * f.platform_bps / 10000,
        after.balance_spec(admin) == before.balance_spec(admin) + price * f.creator_bps / 10000,
        after.balance_spec(f.pool) == before.balance_spec(f.pool) + price * f.pool_bps / 10000,
        after.balance_spec(contract) == before.balance_spec(contract) + price - price * f.platform_bps
            / 10000 - price * f.creator_bps / 10000 - price * f.pool_bps / 10000,
        forall|a: Address|
            a != buyer && a != contract && a != admin && a != f.platform && a != f.pool
                ==> #[trigger] after.balance_spec(a) == before.balance_spec(a),
{
}

/// A sale without a fee config moves the price from the buyer to the
/// contract and touches no other balance.
pub proof fn law_sale_without_fee(
    before: TycoonToken,
    after: TycoonToken,
    buyer: Address,
    contract: Address,
    admin: Address,
    price: int,
)
    requires
        paid(before, after, buyer, contract, admin, None, price),
        buyer != contract,
    ensures
        after.balance_spec(buyer) == before.balance_spec(buyer) - price,
        after.balance_spec(contract) == before.balance_spec(contract) + price,
        forall|a: Address| a != buyer && a != contract ==> #[trigger] after.balance_spec(a) == before.balance_spec(a),
{
}

/// The transfers that settle a sale under a fee config: first the buyer
/// pays the contract the price, then the contract pays the platform, the
/// admin (as creator) and the pool their shares, each rounded down; without
/// a fee config the buyer's payment is the only one.
pub proof fn law_sale_plan_transfers(buyer: Address, contract: Address, admin: Address, f: FeeConfig, price: int)
    ensures
        ({
            let plan = sale_plan(buyer, contract, admin, Some(f), price);
            &&& plan.len() == 4
            &&& plan[0] == Payment { from: buyer, to: contract, amount: price as i128 }
            &&& plan[1] == Payment {
                from: contract,
                to: f.platform,
                amount: (price * f.platform_bps / 10000) as i128,
            }
            &&& plan[2] == Payment {
                from: contract,
                to: admin,
                amount: (price * f.creator_bps / 10000) as i128,
            }
            &&& plan[3] == Payment { from: contract, to: f.pool, amount: (price * f.pool_bps / 10000) as i128 }
        }),
        sale_plan(buyer, contract, admin, None, price) == seq![Payment { from: buyer, to: contract, amount: price as i128 }],
{
}

/// Only CashTiered and TaxRefund (codes 1 and 2) limit the strength, to
/// `1..=5`; every other perk (codes 0 and 3..=11) takes any `u32` strength.
pub proof fn law_strength_rule(code: u32, strength: u32)
    requires
        code <= 11,
    ensures
        perk_of_code(code) is Some,
        strength_ok(perk_of_code(code).unwrap(), strength) <==> ((code == 1 || code == 2) ==> 1 <= strength
            <= 5),
{
}

/// The same rule, by perk: a strength is refused only for a tiered perk and
/// only outside `1..=5`.
pub proof fn law_strength_rule_by_perk(p: Perk, strength: u32)
    ensures
        strength_ok(p, strength) <==> ((p == Perk::CashTiered || p == Perk::TaxRefund) ==> 1 <= strength <= 5),
{
}

/// Everything the collectibles contract stores, as plain values and lists
/// of pairs, for keeping it between calls.
pub struct CollectiblesParts {
    pub id: Address,
    pub admin: Option<Address>,
    pub paused: bool,
    pub minter: Option<Address>,
    pub shop: Option<ShopTokens>,
    pub fee: Option<FeeConfig>,
    pub next_token_id: u128,
    pub balances: Vec<((Address, u128), u64)>,
    pub perks: Vec<(u128, (Perk, u32))>,
    pub stock: Vec<(u128, u64)>,
    pub prices: Vec<(u128, Price)>,
}

/// Stored parts a contract can be rebuilt from.
pub open spec fn parts_valid(p: CollectiblesParts) -> bool {
    &&& crate::ledger::valid_balance_pairs(p.balances@)
    &&& unique_keys(p.perks@)
    &&& unique_keys(p.stock@)
    &&& unique_keys(p.prices@)
    &&& (p.fee matches Some(f) ==> f.platform_bps + f.creator_bps + f.pool_bps <= 10000)
    &&& (p.admin is None ==> p.minter is None && p.shop is None)
}

/// The state of the collectibles contract.
pub struct Collectibles {
    id: Address,
    admin: Option<Address>,
    paused: bool,
    minter: Option<Address>,
    shop: Option<ShopTokens>,
    fee: Option<FeeConfig>,
    next_token_id: u128,
    ledger: MultiTokenLedger,
    perks: AssocMap<u128, (Perk, u32)>,
    stock: AssocMap<u128, u64>,
    prices: AssocMap<u128, Price>,
}

impl View for Collectibles {
    type V = CollectiblesView;

    closed spec fn view(&self) -> CollectiblesView {
        CollectiblesView {
            id: self.id,
            admin: self.admin,
            paused: self.paused,
            minter: self.minter,
            shop: self.shop,
            fee: self.fee,
            next_token_id: self.next_token_id,
            balances: self.ledger.view(),
            perks: self.perks.view(),
            stock: self.stock.view(),
            prices: self.prices.view(),
        }
    }
}

impl Collectibles {
    pub closed spec fn wf(&self) -> bool {
        &&& self.ledger.wf()
        &&& self.perks.wf()
        &&& self.stock.wf()
        &&& self.prices.wf()
        &&& (self.fee matches Some(f) ==> f.platform_bps + f.creator_bps + f.pool_bps <= 10000)
        &&& (self.admin is None ==> self.minter is None && self.shop is None)
    }

    /// The balances of every owner form a finite set of token ids.
    pub proof fn lemma_wf(&self, owner: Address)
        requires
            self.wf(),
        ensures
            self.view().balances.dom().finite(),
            owned_in(self.view().balances, owner).finite(),
            forall|k: (Address, u128)| #[trigger] self.view().balances.contains_key(k) ==> self.view().balances[k] > 0,
    {
        self.ledger.lemma_wf(owner);
    }

    /// The stored lists of pairs: balances, perks, stock and prices.
    pub closed spec fn stored(&self) -> (
        Seq<((Address, u128), u64)>,
        Seq<(u128, (Perk, u32))>,
        Seq<(u128, u64)>,
        Seq<(u128, Price)>,
    ) {
        (self.ledger.stored(), self.perks.entries(), self.stock.entries(), self.prices.entries())
    }

    /// Two contracts that store the same lists and settings are in the same
    /// state: saving a contract's parts and rebuilding it from them loses
    /// nothing.
    pub proof fn law_same_parts_same_state(&self, other: &Self)
        requires
            self.wf(),
            other.wf(),
            self.stored() == other.stored(),
            self.view().id == other.view().id,
            self.view().admin == other.view().admin,
            self.view().paused == other.view().paused,
            self.view().minter == other.view().minter,
            self.view().shop == other.view().shop,
            self.view().fee == other.view().fee,
            self.view().next_token_id == other.view().next_token_id,
        ensures
            self.view() == other.view(),
    {
        self.ledger.lemma_same_stored_same_view(&other.ledger);
        self.perks.lemma_same_entries_same_view(&other.perks);
        self.stock.lemma_same_entries_same_view(&other.stock);
        self.prices.lemma_same_entries_same_view(&other.prices);
    }

    /// Everything the contract stores, for keeping it between calls.
    pub fn into_parts(self) -> (p: CollectiblesParts)
        requires
            self.wf(),
        ensures
            parts_valid(p),
            p.id == self.view().id,
            p.admin == self.view().admin,
            p.paused == self.view().paused,
            p.minter == self.view().minter,
            p.shop == self.view().shop,
            p.fee == self.view().fee,
            p.next_token_id == self.view().next_token_id,
            (p.balances@, p.perks@, p.stock@, p.prices@) == self.stored(),
    {
        let balances = self.ledger.into_pairs();
        let perks = self.perks.into_pairs();
        let stock = self.stock.into_pairs();
        let prices = self.prices.into_pairs();
        CollectiblesParts {
            id: self.id,
            admin: self.admin,
            paused: self.paused,
            minter: self.minter,
            shop: self.shop,
            fee: self.fee,
            next_token_id: self.next_token_id,
            balances,
            perks,
            stock,
            prices,
        }
    }

    /// Rebuilds the contract from stored parts; `None` when they are not
    /// consistent (a key stored twice, a zero balance, fee shares above the
    /// whole, or settings without an admin).
    pub fn from_parts(p: CollectiblesParts) -> (r: Option<Self>)
        ensures
            r is Some <==> parts_valid(p),
            r matches Some(c) ==> c.wf() && c.view().id == p.id && c.view().admin == p.admin
                && c.view().paused == p.paused && c.view().minter == p.minter && c.view().shop == p.shop
                && c.view().fee == p.fee && c.view().next_token_id == p.next_token_id && c.stored() == (
                p.balances@,
                p.perks@,
                p.stock@,
                p.prices@,
            ),
    {
        let ghost orig = p;
        if let Some(f) = p.fee {
            if f.platform_bps as u64 + f.creator_bps as u64 + f.pool_bps as u64 > 10000 {
                return None;
            }
        }
        if p.admin.is_none() && (p.minter.is_some() || p.shop.is_some()) {
            return None;
        }
        let CollectiblesParts {
            id,
            admin,
            paused,
            minter,
            shop,
            fee,
            next_token_id,
            balances,
            perks,
            stock,
            prices,
        } = p;
        let ghost (b0, p0, s0, q0) = (balances@, perks@, stock@, prices@);
        let ledger = MultiTokenLedger::from_pairs(balances);
        let perks = AssocMap::from_pairs(perks);
        let stock = AssocMap::from_pairs(stock);
        let prices = AssocMap::from_pairs(prices);
        match (ledger, perks, stock, prices) {
            (Some(ledger), Some(perks), Some(stock), Some(prices)) => Some(
                Collectibles {
                    id,
                    admin,
                    paused,
                    minter,
                    shop,
                    fee,
                    next_token_id,
                    ledger,
                    perks,
                    stock,
                    prices,
                },
            ),
            _ => None,
        }
    }

    /// A collectibles contract at address `id`, not yet initialized; token
    /// ids handed out by the contract start at 1.
    pub fn new(id: Address) -> (c: Self)
        ensures
            c.wf(),
            c.view() == (CollectiblesView {
                id,
                admin: None,
                paused: false,
                minter: None,
                shop: None,
                fee: None,
                next_token_id: 1,
                balances: Map::empty(),
                perks: Map::empty(),
                stock: Map::empty(),
                prices: Map::empty(),
            }),
            forall|o: Address| #[trigger] c.view().owned_count(o) == 0,
    {
        let ledger = MultiTokenLedger::new();
        let c = Collectibles {
            id,
            admin: None,
            paused: false,
            minter: None,
            shop: None,
            fee: None,
            next_token_id: 1,
            ledger,
            perks: AssocMap::new(),
            stock: AssocMap::new(),
            prices: AssocMap::new(),
        };
        proof {
            assert forall|o: Address| #[trigger] c.view().owned_count(o) == 0 by {
                assert(ledger.owned_count(o) == 0);
            }
        }
        c
    }

    fn check_admin(&self, caller: Address) -> (r: Result<(), CollectibleError>)
        ensures
            r matches Err(e) ==> self.view().admin_error(caller) == Some(e),
            r is Ok ==> self.view().admin_error(caller) is None,
    {
        match self.admin {
            None => Err(CollectibleError::NotInitialized),
            Some(a) => if a == caller {
                Ok(())
            } else {
                Err(CollectibleError::Unauthorized)
            },
        }
    }

    pub fn contract_id(&self) -> (a: Address)
        ensures
            a == self.view().id,
    {
        self.id
    }

    /// Records the admin; only once.
    pub fn initialize(&mut self, admin: Address) -> (r: Result<(), CollectibleError>)
        requires
            old(self).wf(),
        ensures
            final(self).wf(),
            r is Ok <==> old(self).view().admin is None,
            r is Ok ==> final(self).view() == (CollectiblesView { admin: Some(admin), ..old(self).view() }),
            r is Err ==> r == Err::<(), CollectibleError>(CollectibleError::AlreadyInitialized) && *final(self) == *old(self),
    {
        if self.admin.is_some() {
            return Err(CollectibleError::AlreadyInitialized);
        }
        self.admin = Some(admin);
        Ok(())
    }

    /// Pauses or resumes every mutating entrypoint; only the admin may.
    pub fn set_pause(&mut self, caller: Address, paused: bool) -> (r: Result<(), CollectibleError>)
        requires
            old(self).wf(),
        ensures
            final(self).wf(),
            r is Ok <==> old(self).view().admin_error(caller) is None,
            r is Ok ==> final(self).view() == (CollectiblesView { paused, ..old(self).view() }),
            r matches Err(e) ==> old(self).view().admin_error(caller) == Some(e) && *final(self) == *old(self),
    {
        self.check_admin(caller)?;
        self.paused = paused;
        Ok(())
    }

    pub fn admin(&self) -> (a: Option<Address>)
        ensures
            a == self.view().admin,
    {
        self.admin
    }

    pub fn is_contract_paused(&self) -> (b: bool)
        ensures
            b == self.view().paused,
    {
        self.paused
    }

    /// Appoints the backend minter, replacing any earlier one; only the
    /// admin may.
    pub fn set_backend_minter(&mut self, caller: Address, minter: Address) -> (r: Result<(), CollectibleError>)
        requires
            old(self).wf(),
        ensures
            final(self).wf(),
            r is Ok <==> old(self).view().admin_error(caller) is None,
            r is Ok ==> final(self).view() == (CollectiblesView { minter: Some(minter), ..old(self).view() }),
            r matches Err(e) ==> old(self).view().admin_error(caller) == Some(e) && *final(self) == *old(self),
    {
        self.check_admin(caller)?;
        self.minter = Some(minter);
        Ok(())
    }

    pub fn get_backend_minter(&self) -> (m: Option<Address>)
        ensures
            m == self.view().minter,
    {
        self.minter
    }

    /// Sets the TYC and USDC token addresses the shop takes payment in;
    /// only the admin may.
    pub fn init_shop(&mut self, caller: Address, tyc: Address, usdc: Address) -> (r: Result<(), CollectibleError>)
        requires
            old(self).wf(),
        ensures
            final(self).wf(),
            r is Ok <==> old(self).view().admin_error(caller) is None,
            r is Ok ==> final(self).view() == (CollectiblesView {
                shop: Some(ShopTokens { tyc, usdc }),
                ..old(self).view()
            }),
            r matches Err(e) ==> old(self).view().admin_error(caller) == Some(e) && *final(self) == *old(self),
    {
        self.check_admin(caller)?;
        self.shop = Some(ShopTokens { tyc, usdc });
        Ok(())
    }

    pub fn get_shop_tokens(&self) -> (s: Option<ShopTokens>)
        ensures
            s == self.view().shop,
    {
        self.shop
    }

    /// Sets how sale prices are split; the shares may not exceed the whole
    /// price. Only the admin may.
    pub fn set_fee_config(
        &mut self,
        caller: Address,
        platform_bps: u32,
        creator_bps: u32,
        pool_bps: u32,
        platform: Address,
        pool: Address,
    ) -> (r: Result<(), CollectibleError>)
        requires
            old(self).wf(),
        ensures
            final(self).wf(),
            r is Ok <==> old(self).view().admin_error(caller) is None && platform_bps + creator_bps
                + pool_bps <= 10000,
            r is Ok ==> final(self).view() == (CollectiblesView {
                fee: Some(FeeConfig { platform_bps, creator_bps, pool_bps, platform, pool }),
                ..old(self).view()
            }),
            r matches Err(e) ==> *final(self) == *old(self) && e == (match old(self).view().admin_error(caller) {
                Some(e2) => e2,
                None => CollectibleError::InvalidFeeConfig,
            }),
    {
        self.check_admin(caller)?;
        if platform_bps as u64 + creator_bps as u64 + pool_bps as u64 > 10000 {
            return Err(CollectibleError::InvalidFeeConfig);
        }
        self.fee = Some(FeeConfig { platform_bps, creator_bps, pool_bps, platform, pool });
        Ok(())
    }

    pub fn get_fee_config(&self) -> (f: Option<FeeConfig>)
        ensures
            f == self.view().fee,
    {
        self.fee
    }

    pub fn balance_of(&self, owner: Address, token_id: u128) -> (b: u64)
        requires
            self.wf(),
        ensures
            b == self.view().balance(owner, token_id),
    {
        self.ledger.balance_of(owner, token_id)
    }

    /// How many distinct token ids `owner` holds.
    pub fn owned_token_count(&self, owner: Address) -> (c: u64)
        requires
            self.wf(),
        ensures
            c == self.view().owned_count(owner),
    {
        self.ledger.owned_token_count(owner)
    }

    /// The token ids `owner` holds, each once.
    pub fn tokens_of(&self, owner: Address) -> (ids: Vec<u128>)
        requires
            self.wf(),
        ensures
            ids@.no_duplicates(),
            ids@.to_set() == owned_in(self.view().balances, owner),
    {
        self.ledger.tokens_of(owner)
    }

    pub fn get_stock(&self, token_id: u128) -> (s: u64)
        requires
            self.wf(),
        ensures
            s == self.view().stock_of(token_id),
    {
        match self.stock.get(&token_id) {
            Some(s) => *s,
            None => 0,
        }
    }

    pub fn get_price(&self, token_id: u128) -> (p: Option<Price>)
        requires
            self.wf(),
        ensures
            p is Some <==> self.view().prices.contains_key(token_id),
            p matches Some(pr) ==> pr == self.view().prices[token_id],
    {
        match self.prices.get(&token_id) {
            Some(p) => Some(*p),
            None => None,
        }
    }

    pub fn get_token_perk(&self, token_id: u128) -> (p: Perk)
        requires
            self.wf(),
        ensures
            p == self.view().perk_of(token_id),
    {
        match self.perks.get(&token_id) {
            Some(ps) => ps.0,
            None => Perk::NoPerk,
        }
    }

    pub fn get_token_strength(&self, token_id: u128) -> (s: u32)
        requires
            self.wf(),
        ensures
            s == self.view().strength_of(token_id),
    {
        match self.perks.get(&token_id) {
            Some(ps) => ps.1,
            None => 0,
        }
    }

    /// The token id the next stocked or minted collectible will get.
    pub fn get_next_token_id(&self) -> (t: u128)
        ensures
            t == self.view().next_token_id,
    {
        self.next_token_id
    }

    /// Sets the perk and strength of a token id, without checking them;
    /// only the admin may.
    pub fn set_token_perk(&mut self, caller: Address, token_id: u128, perk: Perk, strength: u32) -> (r: Result<
        (),
        CollectibleError,
    >)
        requires
            old(self).wf(),
        ensures
            final(self).wf(),
            r is Ok <==> old(self).view().admin_error(caller) is None,
            r is Ok ==> final(self).view() == (CollectiblesView {
                perks: old(self).view().perks.insert(token_id, (perk, strength)),
                ..old(self).view()
            }),
            r matches Err(e) ==> old(self).view().admin_error(caller) == Some(e) && *final(self) == *old(self),
    {
        self.check_admin(caller)?;
        self.perks.insert(token_id, (perk, strength));
        Ok(())
    }

    /// Lists a token id for sale at the given prices with `stock` copies,
    /// replacing an earlier listing; prices are stored unchecked. Only the
    /// admin may.
    pub fn set_collectible_for_sale(
        &mut self,
        caller: Address,
        token_id: u128,
        tyc_price: i128,
        usdc_price: i128,
        stock: u64,
    ) -> (r: Result<(), CollectibleError>)
        requires
            old(self).wf(),
        ensures
            final(self).wf(),
            r is Ok <==> old(self).view().admin_error(caller) is None,
            r is Ok ==> final(self).view() == (CollectiblesView {
                prices: old(self).view().prices.insert(token_id, Price { tyc: tyc_price, usdc: usdc_price }),
                stock: old(self).view().stock.insert(token_id, stock),
                ..old(self).view()
            }),
            r matches Err(e) ==> old(self).view().admin_error(caller) == Some(e) && *final(self) == *old(self),
    {
        self.check_admin(caller)?;
        self.prices.insert(token_id, Price { tyc: tyc_price, usdc: usdc_price });
        self.stock.insert(token_id, stock);
        Ok(())
    }

    /// Creates a new shop listing: a fresh token id with the given perk,
    /// strength, prices and `amount` copies in stock. Blocked while paused;
    /// only the admin may.
    pub fn stock_shop(
        &mut self,
        caller: Address,
        amount: u64,
        perk: u32,
        strength: u32,
        tyc_price: u128,
        usdc_price: u128,
    ) -> (r: Result<u128, CollectibleError>)
        requires
            old(self).wf(),
        ensures
            final(self).wf(),
            r is Ok <==> !old(self).view().paused && old(self).view().admin_error(caller) is None
                && perk_of_code(perk) is Some && strength_ok(perk_of_code(perk).unwrap(), strength)
                && tyc_price <= i128::MAX && usdc_price <= i128::MAX && old(self).view().next_token_id
                < u128::MAX,
            r matches Ok(id) ==> id == old(self).view().next_token_id && final(self).view() == (
            CollectiblesView {
                next_token_id: (id + 1) as u128,
                perks: old(self).view().perks.insert(id, (perk_of_code(perk).unwrap(), strength)),
                stock: old(self).view().stock.insert(id, amount),
                prices: old(self).view().prices.insert(
                    id,
                    Price { tyc: tyc_price as i128, usdc: usdc_price as i128 },
                ),
                ..old(self).view()
            }),
            r matches Err(e) ==> *final(self) == *old(self) && e == (if old(self).view().paused {
                CollectibleError::ContractPaused
            } else if old(self).view().admin_error(caller) is Some {
                old(self).view().admin_error(caller).unwrap()
            } else if perk_of_code(perk) is None {
                CollectibleError::InvalidPerk
            } else if !strength_ok(perk_of_code(perk).unwrap(), strength) {
                CollectibleError::InvalidStrength
            } else {
                CollectibleError::Overflow
            }),
    {
        if self.paused {
            return Err(CollectibleError::ContractPaused);
        }
        self.check_admin(caller)?;
        let p = match Perk::from_code(perk) {
            Some(p) => p,
            None => {
                return Err(CollectibleError::InvalidPerk);
            },
        };
        if p.is_tiered() && (strength < MIN_TIER_STRENGTH || strength > MAX_TIER_STRENGTH) {
            return Err(CollectibleError::InvalidStrength);
        }
        if tyc_price > i128::MAX as u128 || usdc_price > i128::MAX as u128 {
            return Err(CollectibleError::Overflow);
        }
        if self.next_token_id == u128::MAX {
            return Err(CollectibleError::Overflow);
        }
        let id = self.next_token_id;
        self.next_token_id = id + 1;
        self.perks.insert(id, (p, strength));
        self.stock.insert(id, amount);
        self.prices.insert(id, Price { tyc: tyc_price as i128, usdc: usdc_price as i128 });
        Ok(id)
    }

    /// Adds `amount` copies to the stock of a listed token id. Blocked
    /// while paused; only the admin may.
    pub fn restock_collectible(&mut self, caller: Address, token_id: u128, amount: u64) -> (r: Result<
        (),
        CollectibleError,
    >)
        requires
            old(self).wf(),
        ensures
            final(self).wf(),
            r is Ok <==> !old(self).view().paused && old(self).view().admin_error(caller) is None && old(self).view().prices.contains_key(token_id) && old(self).view().stock_of(token_id) + amount
                <= u64::MAX,
            r is Ok ==> final(self).view() == (CollectiblesView {
                stock: old(self).view().stock.insert(
                    token_id,
                    (old(self).view().stock_of(token_id) + amount) as u64,
                ),
                ..old(self).view()
            }),
            r matches Err(e) ==> *final(self) == *old(self) && e == (if old(self).view().paused {
                CollectibleError::ContractPaused
            } else if old(self).view().admin_error(caller) is Some {
                old(self).view().admin_error(caller).unwrap()
            } else if !old(self).view().prices.contains_key(token_id) {
                CollectibleError::TokenNotFound
            } else {
                CollectibleError::Overflow
            }),
    {
        if self.paused {
            return Err(CollectibleError::ContractPaused);
        }
        self.check_admin(caller)?;
        if !self.prices.contains_key(&token_id) {
            return Err(CollectibleError::TokenNotFound);
        }
        let cur = self.get_stock(token_id);
        if amount > u64::MAX - cur {
            return Err(CollectibleError::Overflow);
        }
        self.stock.insert(token_id, cur + amount);
        Ok(())
    }

    /// Gives `buyer` `amount` copies of `token_id` without payment or
    /// stock. Blocked while paused.
    pub fn buy_collectible(&mut self, buyer: Address, token_id: u128, amount: u64) -> (r: Result<
        (),
        CollectibleError,
    >)
        requires
            old(self).wf(),
        ensures
            final(self).wf(),
            r is Ok <==> !old(self).view().paused && old(self).view().balance(buyer, token_id) + amount
                <= u64::MAX,
            r is Ok ==> final(self).view() == (CollectiblesView {
                balances: minted(old(self).view().balances, buyer, token_id, amount as nat),
                ..old(self).view()
            }),
            r matches Err(e) ==> *final(self) == *old(self) && e == (if old(self).view().paused {
                CollectibleError::ContractPaused
            } else {
                CollectibleError::Overflow
            }),
    {
        if self.paused {
            return Err(CollectibleError::ContractPaused);
        }
        match self.ledger.mint(buyer, token_id, amount) {
            Ok(()) => Ok(()),
            Err(_) => Err(CollectibleError::Overflow),
        }
    }

    /// Moves `amount` copies of `token_id` from `from` to `to`. Blocked
    /// while paused.
    pub fn transfer(&mut self, from: Address, to: Address, token_id: u128, amount: u64) -> (r: Result<
        (),
        CollectibleError,
    >)
        requires
            old(self).wf(),
        ensures
            final(self).wf(),
            r is Ok <==> !old(self).view().paused && amount <= old(self).view().balance(from, token_id) && (
            from == to || old(self).view().balance(to, token_id) + amount <= u64::MAX),
            r is Ok ==> final(self).view() == (CollectiblesView {
                balances: minted(
                    burned(old(self).view().balances, from, token_id, amount as nat),
                    to,
                    token_id,
                    amount as nat,
                ),
                ..old(self).view()
            }),
            r matches Err(e) ==> *final(self) == *old(self) && e == (if old(self).view().paused {
                CollectibleError::ContractPaused
            } else if amount > old(self).view().balance(from, token_id) {
                CollectibleError::InsufficientBalance
            } else {
                CollectibleError::Overflow
            }),
    {
        if self.paused {
            return Err(CollectibleError::ContractPaused);
        }
        match self.ledger.transfer(from, to, token_id, amount) {
            Ok(()) => Ok(()),
            Err(LedgerError::InsufficientBalance) => Err(CollectibleError::InsufficientBalance),
            Err(LedgerError::Overflow) => Err(CollectibleError::Overflow),
        }
    }

    /// Destroys `amount` of `owner`'s copies of `token_id`. Blocked while
    /// paused.
    pub fn burn(&mut self, owner: Address, token_id: u128, amount: u64) -> (r: Result<(), CollectibleError>)
        requires
            old(self).wf(),
        ensures
            final(self).wf(),
            r is Ok <==> !old(self).view().paused && amount <= old(self).view().balance(owner, token_id),
            r is Ok ==> final(self).view() == (CollectiblesView {
                balances: burned(old(self).view().balances, owner, token_id, amount as nat),
                ..old(self).view()
            }),
            r matches Err(e) ==> *final(self) == *old(self) && e == (if old(self).view().paused {
                CollectibleError::ContractPaused
            } else {
                CollectibleError::InsufficientBalance
            }),
    {
        if self.paused {
            return Err(CollectibleError::ContractPaused);
        }
        match self.ledger.burn(owner, token_id, amount) {
            Ok(()) => Ok(()),
            Err(_) => Err(CollectibleError::InsufficientBalance),
        }
    }

    /// Mints `amount` copies of an existing token id to `to`; only the
    /// admin or the backend minter may. Blocked while paused.
    pub fn backend_mint(&mut self, caller: Address, to: Address, token_id: u128, amount: u64) -> (r: Result<
        (),
        CollectibleError,
    >)
        requires
            old(self).wf(),
        ensures
            final(self).wf(),
            r is Ok <==> !old(self).view().paused && old(self).view().may_mint(caller) && old(self).view().balance(to, token_id) + amount <= u64::MAX,
            r is Ok ==> final(self).view() == (CollectiblesView {
                balances: minted(old(self).view().balances, to, token_id, amount as nat),
                ..old(self).view()
            }),
            r matches Err(e) ==> *final(self) == *old(self) && e == (if old(self).view().paused {
                CollectibleError::ContractPaused
            } else if old(self).view().admin is None {
                CollectibleError::NotInitialized
            } else if !old(self).view().may_mint(caller) {
                CollectibleError::Unauthorized
            } else {
                CollectibleError::Overflow
            }),
    {
        if self.paused {
            return Err(CollectibleError::ContractPaused);
        }
        self.check_minter(caller)?;
        match self.ledger.mint(to, token_id, amount) {
            Ok(()) => Ok(()),
            Err(_) => Err(CollectibleError::Overflow),
        }
    }

    fn check_minter(&self, caller: Address) -> (r: Result<(), CollectibleError>)
        requires
            self.wf(),
        ensures
            r is Ok <==> self.view().may_mint(caller),
            r matches Err(e) ==> e == (if self.view().admin is None {
                CollectibleError::NotInitialized
            } else {
                CollectibleError::Unauthorized
            }),
    {
        if self.admin.is_none() {
            return Err(CollectibleError::NotInitialized);
        }
        if self.admin == Some(caller) || self.minter == Some(caller) {
            Ok(())
        } else {
            Err(CollectibleError::Unauthorized)
        }
    }

    /// Mints one copy of a fresh token id with the given perk and strength
    /// to `to` and returns the id; only the admin or the backend minter may.
    /// Blocked while paused.
    pub fn mint_collectible(&mut self, caller: Address, to: Address, perk: u32, strength: u32) -> (r: Result<
        u128,
        CollectibleError,
    >)
        requires
            old(self).wf(),
        ensures
            final(self).wf(),
            r is Ok <==> !old(self).view().paused && old(self).view().may_mint(caller) && perk_of_code(
                perk,
            ) is Some && strength_ok(perk_of_code(perk).unwrap(), strength) && old(self).view().next_token_id
                < u128::MAX && old(self).view().balance(to, old(self).view().next_token_id) + 1 <= u64::MAX,
            r matches Ok(id) ==> id == old(self).view().next_token_id && final(self).view() == (
            CollectiblesView {
                next_token_id: (id + 1) as u128,
                perks: old(self).view().perks.insert(id, (perk_of_code(perk).unwrap(), strength)),
                balances: minted(old(self).view().balances, to, id, 1),
                ..old(self).view()
            }),
            r matches Err(e) ==> *final(self) == *old(self) && e == (if old(self).view().paused {
                CollectibleError::ContractPaused
            } else if old(self).view().admin is None {
                CollectibleError::NotInitialized
            } else if !old(self).view().may_mint(caller) {
                CollectibleError::Unauthorized
            } else if perk_of_code(perk) is None {
                CollectibleError::InvalidPerk
            } else if !strength_ok(perk_of_code(perk).unwrap(), strength) {
                CollectibleError::InvalidStrength
            } else {
                CollectibleError::Overflow
            }),
    {
        if self.paused {
            return Err(CollectibleError::ContractPaused);
        }
        self.check_minter(caller)?;
        let p = match Perk::from_code(perk) {
            Some(p) => p,
            None => {
                return Err(CollectibleError::InvalidPerk);
            },
        };
        if p.is_tiered() && (strength < MIN_TIER_STRENGTH || strength > MAX_TIER_STRENGTH) {
            return Err(CollectibleError::InvalidStrength);
        }
        if self.next_token_id == u128::MAX {
            return Err(CollectibleError::Overflow);
        }
        let id = self.next_token_id;
        let bal = self.ledger.balance_of(to, id);
        if bal == u64::MAX {
            return Err(CollectibleError::Overflow);
        }
        self.next_token_id = id + 1;
        self.perks.insert(id, (p, strength));
        let m = self.ledger.mint(to, id, 1);
        assert(m is Ok);
        Ok(id)
    }

    /// Burns one copy of `token_id` held by `caller` and returns the perk it
    /// activates. Checked in order: not paused, the caller holds a copy, the
    /// token has a perk, a tiered perk's strength is in `1..=5`.
    pub fn burn_collectible_for_perk(&mut self, caller: Address, token_id: u128) -> (r: Result<
        PerkActivation,
        CollectibleError,
    >)
        requires
            old(self).wf(),
        ensures
            final(self).wf(),
            r is Ok <==> !old(self).view().paused && old(self).view().balance(caller, token_id) >= 1
                && old(self).view().perk_of(token_id) != Perk::NoPerk && strength_ok(
                old(self).view().perk_of(token_id),
                old(self).view().strength_of(token_id),
            ),
            r matches Ok(a) ==> a == (PerkActivation {
                token_id,
                perk: old(self).view().perk_of(token_id),
                strength: old(self).view().strength_of(token_id),
            }) && final(self).view() == (CollectiblesView {
                balances: burned(old(self).view().balances, caller, token_id, 1),
                ..old(self).view()
            }),
            r matches Err(e) ==> *final(self) == *old(self) && e == (if old(self).view().paused {
                CollectibleError::ContractPaused
            } else if old(self).view().balance(caller, token_id) < 1 {
                CollectibleError::InsufficientBalance
            } else if old(self).view().perk_of(token_id) == Perk::NoPerk {
                CollectibleError::InvalidPerk
            } else {
                CollectibleError::InvalidStrength
            }),
    {
        if self.paused {
            return Err(CollectibleError::ContractPaused);
        }
        if self.ledger.balance_of(caller, token_id) < 1 {
            return Err(CollectibleError::InsufficientBalance);
        }
        let perk = self.get_token_perk(token_id);
        let strength = self.get_token_strength(token_id);
        if perk == Perk::NoPerk {
            return Err(CollectibleError::InvalidPerk);
        }
        if perk.is_tiered() && (strength < MIN_TIER_STRENGTH || strength > MAX_TIER_STRENGTH) {
            return Err(CollectibleError::InvalidStrength);
        }
        let b = self.ledger.burn(caller, token_id, 1);
        assert(b is Ok);
        Ok(PerkActivation { token_id, perk, strength })
    }

    /// Sells one copy of a listed token id to `buyer`, who holds `funds` of
    /// the payment currency (TYC, or USDC when `use_usdc`). Checked in
    /// order: not paused, the shop is set up, the listing has a positive
    /// price in that currency, stock is left, the buyer can pay. The stock
    /// drops by one and the buyer holds one more copy before any payment;
    /// the returned sale lists the transfers that settle it: the buyer pays
    /// the contract, which passes the fee shares on to the platform, the
    /// admin (as creator) and the pool. A refused sale changes nothing.
    pub fn sell_from_shop(&mut self, buyer: Address, token_id: u128, use_usdc: bool, funds: i128) -> (r: Result<
        Sale,
        CollectibleError,
    >)
        requires
            old(self).wf(),
        ensures
            final(self).wf(),
            r is Ok <==> purchase_error(old(self).view(), buyer, token_id, use_usdc, funds as int) is None,
            r matches Ok(sale) ==> Some(sale.price as int) == old(self).view().price_in(token_id, use_usdc)
                && sale.price > 0 && old(self).view().shop is Some && sale.currency == (if use_usdc {
                old(self).view().shop.unwrap().usdc
            } else {
                old(self).view().shop.unwrap().tyc
            }) && old(self).view().admin is Some && sale.payments@ == sale_plan(
                buyer,
                old(self).view().id,
                old(self).view().admin.unwrap(),
                old(self).view().fee,
                sale.price as int,
            ) && final(self).view() == (CollectiblesView {
                stock: old(self).view().stock.insert(token_id, (old(self).view().stock_of(token_id) - 1) as u64),
                balances: minted(old(self).view().balances, buyer, token_id, 1),
                ..old(self).view()
            }),
            r matches Err(e) ==> *final(self) == *old(self) && Some(e) == purchase_error(
                old(self).view(),
                buyer,
                token_id,
                use_usdc,
                funds as int,
            ),
    {
        if self.paused {
            return Err(CollectibleError::ContractPaused);
        }
        let shop = match self.shop {
            Some(s) => s,
            None => {
                return Err(CollectibleError::ShopNotInitialized);
            },
        };
        let price = match self.prices.get(&token_id) {
            Some(p) => if use_usdc {
                p.usdc
            } else {
                p.tyc
            },
            None => 0,
        };
        if price <= 0 {
            return Err(CollectibleError::ZeroPrice);
        }
        let stock = self.get_stock(token_id);
        if stock < 1 {
            return Err(CollectibleError::InsufficientStock);
        }
        if funds < price {
            return Err(CollectibleError::InsufficientFunds);
        }
        if self.ledger.balance_of(buyer, token_id) == u64::MAX {
            return Err(CollectibleError::Overflow);
        }
        // Effects before any payment.
        self.stock.insert(token_id, stock - 1);
        let m = self.ledger.mint(buyer, token_id, 1);
        assert(m is Ok);
        let admin = self.admin.unwrap();
        let payments = build_plan(buyer, self.id, admin, self.fee, price);
        let currency = if use_usdc {
            shop.usdc
        } else {
            shop.tyc
        };
        Ok(Sale { price, currency, payments })
    }

    /// Sells one copy of a listed token id to `buyer` and settles the sale
    /// in the payment token (`tyc`, or `usdc` when `use_usdc`), returning
    /// the price. The checks, their order and the effects are those of
    /// `sell_from_shop`, with the buyer's funds read from the payment token;
    /// a refused purchase changes nothing in any of the three contracts.
    pub fn buy_collectible_from_shop(
        &mut self,
        buyer: Address,
        token_id: u128,
        use_usdc: bool,
        tyc: &mut TycoonToken,
        usdc: &mut TycoonToken,
    ) -> (r: Result<i128, CollectibleError>)
        requires
            old(self).wf(),
            old(tyc).wf(),
            old(usdc).wf(),
            old(self).view().shop matches Some(s) ==> s.tyc == old(tyc).id() && s.usdc == old(usdc).id(),
        ensures
            final(self).wf(),
            final(tyc).wf(),
            final(usdc).wf(),
            r is Ok <==> purchase_error(
                old(self).view(),
                buyer,
                token_id,
                use_usdc,
                if use_usdc {
                    old(usdc).balance_spec(buyer)
                } else {
                    old(tyc).balance_spec(buyer)
                },
            ) is None,
            r matches Ok(price) ==> Some(price as int) == old(self).view().price_in(token_id, use_usdc)
                && final(self).view() == (CollectiblesView {
                stock: old(self).view().stock.insert(token_id, (old(self).view().stock_of(token_id) - 1) as u64),
                balances: minted(old(self).view().balances, buyer, token_id, 1),
                ..old(self).view()
            }) && (if use_usdc {
                *final(tyc) == *old(tyc) && paid(
                    *old(usdc),
                    *final(usdc),
                    buyer,
                    old(self).view().id,
                    old(self).view().admin.unwrap(),
                    old(self).view().fee,
                    price as int,
                )
            } else {
                *final(usdc) == *old(usdc) && paid(
                    *old(tyc),
                    *final(tyc),
                    buyer,
                    old(self).view().id,
                    old(self).view().admin.unwrap(),
                    old(self).view().fee,
                    price as int,
                )
            }),
            r matches Err(e) ==> *final(self) == *old(self) && *final(tyc) == *old(tyc) && *final(usdc)
                == *old(usdc) && Some(e) == purchase_error(
                old(self).view(),
                buyer,
                token_id,
                use_usdc,
                if use_usdc {
                    old(usdc).balance_spec(buyer)
                } else {
                    old(tyc).balance_spec(buyer)
                },
            ),
    {
        let funds = if use_usdc {
            usdc.balance(buyer)
        } else {
            tyc.balance(buyer)
        };
        let sale = self.sell_from_shop(buyer, token_id, use_usdc, funds)?;
        let admin = self.admin.unwrap();
        if use_usdc {
            collect_payment(usdc, buyer, self.id, admin, self.fee, sale.price);
        } else {
            collect_payment(tyc, buyer, self.id, admin, self.fee, sale.price);
        }
        Ok(sale.price)
    }
}

/// The first check a shop purchase fails, given what the buyer holds of the
/// payment currency; `None` when the purchase goes through.
pub open spec fn purchase_error(
    v: CollectiblesView,
    buyer: Address,
    token_id: u128,
    use_usdc: bool,
    funds: int,
) -> Option<CollectibleError> {
    if v.paused {
        Some(CollectibleError::ContractPaused)
    } else if v.shop is None {
        Some(CollectibleError::ShopNotInitialized)
    } else if !(v.price_in(token_id, use_usdc) matches Some(p) && p > 0) {
        Some(CollectibleError::ZeroPrice)
    } else if v.stock_of(token_id) < 1 {
        Some(CollectibleError::InsufficientStock)
    } else if funds < v.price_in(token_id, use_usdc).unwrap() {
        Some(CollectibleError::InsufficientFunds)
    } else if v.balance(buyer, token_id) + 1 > u64::MAX {
        Some(CollectibleError::Overflow)
    } else {
        None
    }
}

proof fn lemma_share_split(price: int, bps: int)
    requires
        price >= 0,
        0 <= bps <= 10000,
    ensures
        price * bps / 10000 == (price / 10000) * bps + (price % 10000) * bps / 10000,
        0 <= (price % 10000) * bps / 10000 <= bps,
        (price / 10000) * bps <= price,
{
    let q = price / 10000;
    let r = price % 10000;
    assert(price == 10000 * q + r && 0 <= r < 10000) by (nonlinear_arith)
        requires
            q == price / 10000,
            r == price % 10000,
            price >= 0,
    ;
    assert(price * bps == 10000 * (q * bps) + r * bps) by (nonlinear_arith)
        requires
            price == 10000 * q + r,
    ;
    assert((10000 * (q * bps) + r * bps) / 10000 == q * bps + (r * bps) / 10000) by (nonlinear_arith)
        requires
            r * bps >= 0,
    ;
    assert(0 <= r * bps / 10000 <= bps) by (nonlinear_arith)
        requires
            0 <= r < 10000,
            0 <= bps <= 10000,
    ;
    assert(q * bps <= price) by (nonlinear_arith)
        requires
            price == 10000 * q + r,
            q >= 0,
            r >= 0,
            0 <= bps <= 10000,
    ;
}

/// `bps` basis points of `price`, rounded down, computed without overflow.
fn compute_share(price: i128, bps: u32) -> (s: i128)
    requires
        price >= 0,
        bps <= 10000,
    ensures
        s == share(price as int, bps),
        0 <= s <= price,
{
    proof {
        lemma_share_split(price as int, bps as int);
        lemma_shares_fit(price as int, bps, 0, 0);
    }
    let q = price / 10000;
    let r = price % 10000;
    q * (bps as i128) + r * (bps as i128) / 10000
}

/// The fee shares of a price never add up to more than the price.
pub proof fn lemma_shares_fit(price: int, p: u32, c: u32, q: u32)
    requires
        price >= 0,
        p + c + q <= 10000,
    ensures
        0 <= share(price, p),
        0 <= share(price, c),
        0 <= share(price, q),
        share(price, p) + share(price, c) + share(price, q) <= price,
{
    let (a, b, d) = (price * p, price * c, price * q);
    assert(a >= 0 && b >= 0 && d >= 0) by (nonlinear_arith)
        requires
            price >= 0,
            a == price * p,
            b == price * c,
            d == price * q,
    ;
    assert(a / 10000 + b / 10000 + d / 10000 <= (a + b + d) / 10000) by (nonlinear_arith)
        requires
            a >= 0,
            b >= 0,
            d >= 0,
    ;
    assert(a + b + d <= price * 10000) by (nonlinear_arith)
        requires
            price >= 0,
            p + c + q <= 10000,
            a == price * p,
            b == price * c,
            d == price * q,
    ;
    assert((a + b + d) / 10000 <= price) by (nonlinear_arith)
        requires
            a + b + d <= price * 10000,
            a + b + d >= 0,
    ;
}

/// The transfers that settle a sale at `price`.
fn build_plan(buyer: Address, contract: Address, admin: Address, fee: Option<FeeConfig>, price: i128) -> (plan: Vec<
    Payment,
>)
    requires
        price > 0,
        fee matches Some(f) ==> f.platform_bps + f.creator_bps + f.pool_bps <= 10000,
    ensures
        plan@ == sale_plan(buyer, contract, admin, fee, price as int),
{
    let mut plan: Vec<Payment> = Vec::new();
    plan.push(Payment { from: buyer, to: contract, amount: price });
    match fee {
        None => {},
        Some(f) => {
            let p = compute_share(price, f.platform_bps);
            let c = compute_share(price, f.creator_bps);
            let q = compute_share(price, f.pool_bps);
            plan.push(Payment { from: contract, to: f.platform, amount: p });
            plan.push(Payment { from: contract, to: admin, amount: c });
            plan.push(Payment { from: contract, to: f.pool, amount: q });
        },
    }
    proof {
        assert(plan@ =~= sale_plan(buyer, contract, admin, fee, price as int));
    }
    plan
}

/// The buyer pays `price` to the contract, which then pays the fee shares
/// out of it.
fn collect_payment(
    pay: &mut TycoonToken,
    buyer: Address,
    contract: Address,
    admin: Address,
    fee: Option<FeeConfig>,
    price: i128,
)
    requires
        old(pay).wf(),
        price > 0,
        old(pay).balance_spec(buyer) >= price,
        fee matches Some(f) ==> f.platform_bps + f.creator_bps + f.pool_bps <= 10000,
    ensures
        final(pay).wf(),
        paid(*old(pay), *final(pay), buyer, contract, admin, fee, price as int),
{
    proof {
        pay.law_supply_is_sum_of_balances();
        assert(pay.balance_spec(contract) >= 0);
    }
    let ghost t_start = *pay;
    let r = pay.transfer(buyer, contract, price);
    assert(r is Ok);
    assert(pay.balance_spec(contract) == t_start.balance_spec(contract) - (if contract == buyer {
        price as int
    } else {
        0
    }) + price);
    match fee {
        None => {},
        Some(f) => {
            proof {
                lemma_shares_fit(price as int, f.platform_bps, f.creator_bps, f.pool_bps);
            }
            let p = compute_share(price, f.platform_bps);
            let c = compute_share(price, f.creator_bps);
            let q = compute_share(price, f.pool_bps);
            assert(pay.balance_spec(contract) >= p + c + q);
            let r1 = pay.transfer(contract, f.platform, p);
            assert(r1 is Ok);
            assert(pay.balance_spec(contract) >= c + q);
            let r2 = pay.transfer(contract, admin, c);
            assert(r2 is Ok);
            assert(pay.balance_spec(contract) >= q);
            let r3 = pay.transfer(contract, f.pool, q);
            assert(r3 is Ok);
        },
    }
}

/// Whether `result` is the refusal that a paused contract gives.
pub fn assert_paused_err<T>(result: &Result<T, CollectibleError>) -> (b: bool)
    ensures
        b == (result matches Err(e) && e == CollectibleError::ContractPaused),
{
    match result {
        Err(CollectibleError::ContractPaused) => true,
        _ => false,
    }
}

/// Pausing twice is pausing once, and pausing then resuming a running
/// contract puts it back as it was.
pub proof fn law_pause_idempotent(v: CollectiblesView, paused: bool)
    ensures
        (CollectiblesView { paused, ..CollectiblesView { paused, ..v } }) == (CollectiblesView { paused, ..v }),
        !v.paused ==> (CollectiblesView { paused: false, ..CollectiblesView { paused: true, ..v } }) == v,
{
}

/// Whatever the fee configuration, a purchase moves no payment tokens into
/// or out of existence: what the buyer pays is exactly what the contract,
/// the platform, the admin and the pool receive between them.
pub proof fn law_purchase_conserves_payment(
    before: TycoonToken,
    after: TycoonToken,
    buyer: Address,
    contract: Address,
    admin: Address,
    fee: Option<FeeConfig>,
    price: int,
)
    requires
        paid(before, after, buyer, contract, admin, fee, price),
        price >= 0,
        fee matches Some(f) ==> f.platform_bps + f.creator_bps + f.pool_bps <= 10000,
    ensures
        after.supply() == before.supply(),
        fee matches Some(f) ==> share(price, f.platform_bps) + share(price, f.creator_bps) + share(price, f.pool_bps) <= price,
        fee matches Some(f) ==> price - share(price, f.platform_bps) - share(price, f.creator_bps) - share(
            price,
            f.pool_bps,
        ) >= 0,
        buyer != contract && (fee matches Some(f) ==> buyer != f.platform && buyer != f.pool) && buyer != admin
            ==> after.balance_spec(buyer) == before.balance_spec(buyer) - price,
{
    if let Some(f) = fee {
        lemma_shares_fit(price, f.platform_bps, f.creator_bps, f.pool_bps);
    }
}

/// Reading a token's perk and strength gives back what was last set, and
/// setting them for one token leaves every other token's as it was.
pub proof fn law_perk_read_after_write(v: CollectiblesView, token_id: u128, perk: Perk, strength: u32, other: u128)
    ensures
        ({
            let w = CollectiblesView { perks: v.perks.insert(token_id, (perk, strength)), ..v };
            &&& w.perk_of(token_id) == perk
            &&& w.strength_of(token_id) == strength
            &&& other != token_id ==> w.perk_of(other) == v.perk_of(other) && w.strength_of(other)
                == v.strength_of(other)
        }),
{
}

} // verus!