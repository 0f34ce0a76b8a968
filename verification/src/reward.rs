//! The reward system's voucher balances. Vouchers are semi-fungible tokens
//! held per `(owner, token_id)`; minting or burning zero changes nothing, a
//! first mint of a token id adds it to the owner's count, and burning a
//! balance to zero removes the entry and takes the token id off the count.
//!
//! Refusals carry stable messages that clients match on; they are listed
//! here once and never reworded.
use vstd::prelude::*;

use crate::ledger::{burned, minted, owned_in, valid_balance_pairs, MultiTokenLedger};
use crate::Address;

verus! {

pub const ERR_ALREADY_INITIALIZED: &'static str = "Already initialized";

pub const ERR_UNAUTHORIZED_MINT: &'static str = "Unauthorized: only admin or backend minter can mint";

pub const ERR_CONTRACT_PAUSED: &'static str = "Contract is paused";

pub const ERR_REDEEM_VOUCHER_DEPRECATED: &'static str = "Use redeem_voucher_from instead";

pub const ERR_INVALID_TOKEN_NOT_ALLOWLISTED: &'static str = "Invalid token: not in allowlist";

pub const ERR_INSUFFICIENT_CONTRACT_BALANCE: &'static str = "Insufficient contract balance";

pub const ERR_INSUFFICIENT_BALANCE: &'static str = "Insufficient balance";

/// Why a reward-system operation was refused.
#[derive(Debug, Clone, Copy, PartialEq, Eq, Structural)]
pub enum RewardError {
    AlreadyInitialized,
    InsufficientBalance,
}

impl RewardError {
    /// The stable message clients match on.
    pub fn message(&self) -> (s: &'static str)
        ensures
            s@ == (match *self {
                RewardError::AlreadyInitialized => ERR_ALREADY_INITIALIZED@,
                RewardError::InsufficientBalance => ERR_INSUFFICIENT_BALANCE@,
            }),
    {
        match self {
            RewardError::AlreadyInitialized => ERR_ALREADY_INITIALIZED,
            RewardError::InsufficientBalance => ERR_INSUFFICIENT_BALANCE,
        }
    }
}

/// Everything the reward system stores, for keeping it between calls.
pub struct RewardParts {
    pub admin: Option<Address>,
    pub tyc: Option<Address>,
    pub usdc: Option<Address>,
    pub balances: Vec<((Address, u128), u64)>,
}

/// Stored parts the reward system can be rebuilt from.
pub open spec fn reward_parts_valid(p: RewardParts) -> bool {
    &&& valid_balance_pairs(p.balances@)
    &&& (p.admin is Some <==> p.tyc is Some)
    &&& (p.tyc is Some <==> p.usdc is Some)
}

/// The reward system's configuration and voucher balances.
pub struct RewardSystem {
    admin: Option<Address>,
    tyc: Option<Address>,
    usdc: Option<Address>,
    ledger: MultiTokenLedger,
}

impl RewardSystem {
    pub closed spec fn admin_spec(&self) -> Option<Address> {
        self.admin
    }

    /// The TYC and USDC token addresses, once initialized.
    pub closed spec fn tokens_spec(&self) -> Option<(Address, Address)> {
        match (self.tyc, self.usdc) {
            (Some(t), Some(u)) => Some((t, u)),
            _ => None,
        }
    }

    /// The non-zero voucher balances.
    pub closed spec fn balances(&self) -> Map<(Address, u128), u64> {
        self.ledger.view()
    }

    pub open spec fn balance(&self, owner: Address, token_id: u128) -> nat {
        crate::ledger::balance_in(self.balances(), owner, token_id)
    }

    pub open spec fn owned_count(&self, owner: Address) -> nat {
        owned_in(self.balances(), owner).len()
    }

    pub closed spec fn wf(&self) -> bool {
        &&& self.ledger.wf()
        &&& (self.admin is Some <==> self.tokens_spec() is Some)
        &&& (self.tyc is Some <==> self.usdc is Some)
    }

    /// The stored `((owner, token_id), balance)` pairs.
    pub closed spec fn stored(&self) -> Seq<((Address, u128), u64)> {
        self.ledger.stored()
    }

    /// Two reward systems that store the same pairs hold the same balances.
    pub proof fn law_same_parts_same_state(&self, other: &Self)
        requires
            self.wf(),
            other.wf(),
            self.stored() == other.stored(),
        ensures
            self.balances() == other.balances(),
    {
        self.ledger.lemma_same_stored_same_view(&other.ledger);
    }

    /// Everything the system stores, for keeping it between calls.
    pub fn into_parts(self) -> (p: RewardParts)
        requires
            self.wf(),
        ensures
            reward_parts_valid(p),
            p.admin == self.admin_spec(),
            (p.tyc, p.usdc) == (match self.tokens_spec() {
                Some((t, u)) => (Some(t), Some(u)),
                None => (None, None),
            }),
            p.balances@ == self.stored(),
    {
        let balances = self.ledger.into_pairs();
        RewardParts { admin: self.admin, tyc: self.tyc, usdc: self.usdc, balances }
    }

    /// Rebuilds the system from stored parts; `None` when they are not
    /// consistent.
    pub fn from_parts(p: RewardParts) -> (r: Option<Self>)
        ensures
            r is Some <==> reward_parts_valid(p),
            r matches Some(s) ==> s.wf() && s.admin_spec() == p.admin && s.tokens_spec() == (match (
                p.tyc,
                p.usdc,
            ) {
                (Some(t), Some(u)) => Some((t, u)),
                _ => None,
            }) && s.stored() == p.balances@,
    {
        if p.admin.is_some() != p.tyc.is_some() || p.tyc.is_some() != p.usdc.is_some() {
            return None;
        }
        let RewardParts { admin, tyc, usdc, balances } = p;
        match MultiTokenLedger::from_pairs(balances) {
            Some(ledger) => Some(RewardSystem { admin, tyc, usdc, ledger }),
            None => None,
        }
    }

    pub fn new() -> (s: Self)
        ensures
            s.wf(),
            s.admin_spec() is None,
            s.balances() == Map::<(Address, u128), u64>::empty(),
            forall|o: Address| #[trigger] s.owned_count(o) == 0,
    {
        let ledger = MultiTokenLedger::new();
        let s = RewardSystem { admin: None, tyc: None, usdc: None, ledger };
        proof {
            assert forall|o: Address| #[trigger] s.owned_count(o) == 0 by {
                assert(ledger.owned_count(o) == 0);
            }
        }
        s
    }

    /// Records the admin and the TYC and USDC token addresses; only once.
    pub fn initialize(&mut self, admin: Address, tyc: Address, usdc: Address) -> (r: Result<(), RewardError>)
        requires
            old(self).wf(),
        ensures
            final(self).wf(),
            r is Ok <==> old(self).admin_spec() is None,
            r is Ok ==> final(self).admin_spec() == Some(admin) && final(self).tokens_spec() == Some(
                (tyc, usdc),
            ) && final(self).balances() == old(self).balances(),
            r is Err ==> r == Err::<(), RewardError>(RewardError::AlreadyInitialized) && *final(self)
                == *old(self),
    {
        if self.admin.is_some() {
            return Err(RewardError::AlreadyInitialized);
        }
        self.admin = Some(admin);
        self.tyc = Some(tyc);
        self.usdc = Some(usdc);
        Ok(())
    }

    pub fn admin(&self) -> (a: Option<Address>)
        ensures
            a == self.admin_spec(),
    {
        self.admin
    }

    pub fn get_balance(&self, owner: Address, token_id: u128) -> (b: u64)
        requires
            self.wf(),
        ensures
            b == self.balance(owner, token_id),
    {
        self.ledger.balance_of(owner, token_id)
    }

    pub fn owned_token_count(&self, owner: Address) -> (c: u64)
        requires
            self.wf(),
        ensures
            c == self.owned_count(owner),
    {
        self.ledger.owned_token_count(owner)
    }

    /// Adds `amount` vouchers of `token_id` to `owner`; zero changes nothing.
    pub fn test_mint(&mut self, owner: Address, token_id: u128, amount: u64)
        requires
            old(self).wf(),
            old(self).balance(owner, token_id) + amount <= u64::MAX,
        ensures
            final(self).wf(),
            final(self).balances() == minted(old(self).balances(), owner, token_id, amount as nat),
            final(self).admin_spec() == old(self).admin_spec(),
            final(self).tokens_spec() == old(self).tokens_spec(),
            forall|who: Address| #[trigger] final(self).owned_count(who) == old(self).owned_count(who) + (
            if who == owner && amount > 0 && old(self).balance(owner, token_id) == 0 {
                1int
            } else {
                0int
            }),
    {
        proof {
            assert forall|who: Address| #[trigger] owned_in(
                minted(self.ledger.view(), owner, token_id, amount as nat),
                who,
            ).len() == self.owned_count(who) + (if who == owner && amount > 0 && self.balance(owner, token_id)
                == 0 {
                1int
            } else {
                0int
            }) by {
                crate::ledger::law_mint_owned_count(self.ledger, owner, token_id, amount as nat, who);
            }
        }
        let r = self.ledger.mint(owner, token_id, amount);
        assert(r is Ok);
    }

    /// Removes `amount` vouchers of `token_id` from `owner`; zero changes
    /// nothing, and a holder with fewer than `amount` is refused with
    /// "Insufficient balance".
    pub fn test_burn(&mut self, owner: Address, token_id: u128, amount: u64) -> (r: Result<(), RewardError>)
        requires
            old(self).wf(),
        ensures
            final(self).wf(),
            r is Ok <==> amount <= old(self).balance(owner, token_id),
            r is Ok ==> final(self).balances() == burned(old(self).balances(), owner, token_id, amount as nat)
                && final(self).admin_spec() == old(self).admin_spec() && final(self).tokens_spec() == old(self).tokens_spec() && forall|who: Address| #[trigger] final(self).owned_count(who) == old(self).owned_count(who) - (if who == owner && amount > 0 && old(self).balance(owner, token_id)
                == amount {
                1int
            } else {
                0int
            }),
            r is Err ==> r == Err::<(), RewardError>(RewardError::InsufficientBalance) && *final(self)
                == *old(self),
    {
        if amount > self.ledger.balance_of(owner, token_id) {
            return Err(RewardError::InsufficientBalance);
        }
        proof {
            assert forall|who: Address| #[trigger] owned_in(
                burned(self.ledger.view(), owner, token_id, amount as nat),
                who,
            ).len() == self.owned_count(who) - (if who == owner && amount > 0 && self.balance(owner, token_id)
                == amount {
                1int
            } else {
                0int
            }) by {
                crate::ledger::law_burn_owned_count(self.ledger, owner, token_id, amount as nat, who);
            }
        }
        let r = self.ledger.burn(owner, token_id, amount);
        assert(r is Ok);
        Ok(())
    }
}

} // verus!
