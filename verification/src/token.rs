//! The TYC fungible token (SEP-41 shape): balances, allowances that lapse
//! at a ledger, an admin who alone may mint and may hand the role on, and a
//! total supply that only `mint` and `burn` change.
use vstd::prelude::*;

use crate::assoc::{unique_keys, AssocMap};
use crate::Address;

verus! {

/// Why a token operation was refused.
#[derive(Debug, Clone, Copy, PartialEq, Eq, Structural)]
pub enum TokenError {
    AlreadyInitialized,
    NotInitialized,
    /// The caller is not the admin.
    Unauthorized,
    NegativeAmount,
    InsufficientBalance,
    InsufficientAllowance,
    /// A non-zero allowance must not lapse before the current ledger.
    InvalidExpiration,
    /// The total supply would not fit in an `i128`.
    Overflow,
}

/// An amount a spender may move on an owner's behalf, until a ledger.
#[derive(Debug, Clone, Copy, PartialEq, Eq, Structural)]
pub struct Allowance {
    pub amount: i128,
    pub expiration_ledger: u32,
}

/// The sum of the balances in a list of `(holder, balance)` pairs.
pub open spec fn sum_balances(s: Seq<(Address, i128)>) -> int
    decreases s.len(),
{
    if s.len() == 0 {
        0
    } else {
        sum_balances(s.drop_last()) + s.last().1
    }
}

proof fn lemma_sum_update(s: Seq<(Address, i128)>, i: int, e: (Address, i128))
    requires
        0 <= i < s.len(),
    ensures
        sum_balances(s.update(i, e)) == sum_balances(s) - s[i].1 + e.1,
    decreases s.len(),
{
    let u = s.update(i, e);
    if i == s.len() - 1 {
        assert(u.drop_last() =~= s.drop_last());
    } else {
        lemma_sum_update(s.drop_last(), i, e);
        assert(u.drop_last() =~= s.drop_last().update(i, e));
    }
}

proof fn lemma_sum_nonneg_bound(s: Seq<(Address, i128)>, i: int)
    requires
        0 <= i < s.len(),
        forall|j: int| 0 <= j < s.len() ==> s[j].1 >= 0,
    ensures
        s[i].1 <= sum_balances(s),
        sum_balances(s) >= 0,
    decreases s.len(),
{
    let t = s.drop_last();
    assert(s.last() == s[s.len() - 1]);
    assert(s[s.len() - 1].1 >= 0);
    assert(sum_balances(s) == sum_balances(t) + s.last().1);
    if s.len() == 1 {
        assert(t.len() == 0);
        assert(sum_balances(t) == 0);
    } else {
        assert forall|j: int| 0 <= j < t.len() implies t[j].1 >= 0 by {
            assert(t[j] == s[j]);
        }
        if i < s.len() - 1 {
            lemma_sum_nonneg_bound(t, i);
            assert(t[i] == s[i]);
        } else {
            lemma_sum_nonneg_bound(t, 0);
        }
    }
}

proof fn lemma_sum_prefix_le(s: Seq<(Address, i128)>, i: int)
    requires
        0 <= i <= s.len(),
        forall|j: int| 0 <= j < s.len() ==> s[j].1 >= 0,
    ensures
        sum_balances(s.take(i)) <= sum_balances(s),
    decreases s.len(),
{
    if i == s.len() {
        assert(s.take(i) =~= s);
    } else {
        let t = s.drop_last();
        assert forall|j: int| 0 <= j < t.len() implies t[j].1 >= 0 by {
            assert(t[j] == s[j]);
        }
        lemma_sum_prefix_le(t, i);
        assert(t.take(i) =~= s.take(i));
        assert(s[s.len() - 1].1 >= 0);
    }
}

/// Everything a token contract stores, as plain values and lists of pairs,
/// for keeping it between calls.
pub struct TokenParts {
    pub id: Address,
    pub admin: Option<Address>,
    pub balances: Vec<(Address, i128)>,
    pub allowances: Vec<((Address, Address), Allowance)>,
    pub supply: i128,
}

/// Stored parts a token can be rebuilt from: no key twice, no negative
/// balance or allowance, and the supply is the sum of the balances.
pub open spec fn token_parts_valid(p: TokenParts) -> bool {
    &&& unique_keys(p.balances@)
    &&& unique_keys(p.allowances@)
    &&& forall|i: int| 0 <= i < p.balances@.len() ==> p.balances@[i].1 >= 0
    &&& forall|i: int| 0 <= i < p.allowances@.len() ==> p.allowances@[i].1.amount >= 0
    &&& p.supply == sum_balances(p.balances@)
}

/// The state of one fungible token contract.
pub struct TycoonToken {
    id: Address,
    admin: Option<Address>,
    balances: AssocMap<Address, i128>,
    allowances: AssocMap<(Address, Address), Allowance>,
    supply: i128,
}

impl TycoonToken {
    /// This token contract's own address.
    pub closed spec fn id(&self) -> Address {
        self.id
    }

    pub closed spec fn admin_spec(&self) -> Option<Address> {
        self.admin
    }

    /// The stored balances.
    pub closed spec fn balances(&self) -> Map<Address, i128> {
        self.balances.view()
    }

    /// The stored allowances, keyed by `(owner, spender)`.
    pub closed spec fn allowances(&self) -> Map<(Address, Address), Allowance> {
        self.allowances.view()
    }

    pub closed spec fn supply(&self) -> int {
        self.supply as int
    }

    /// Every address that has a stored balance, each once.
    pub closed spec fn holder_entries(&self) -> Seq<(Address, i128)> {
        self.balances.entries()
    }

    pub open spec fn balance_spec(&self, a: Address) -> int {
        if self.balances().contains_key(a) {
            self.balances()[a] as int
        } else {
            0
        }
    }

    /// What `spender` may still move from `owner` at `ledger`.
    pub open spec fn allowance_spec(&self, owner: Address, spender: Address, ledger: u32) -> int {
        if self.allowances().contains_key((owner, spender)) && self.allowances()[(
        owner,
        spender,
        )].expiration_ledger >= ledger {
            self.allowances()[(owner, spender)].amount as int
        } else {
            0
        }
    }

    pub closed spec fn wf(&self) -> bool {
        &&& self.balances.wf()
        &&& self.allowances.wf()
        &&& forall|a: Address| #[trigger] self.balances.view().contains_key(a) ==> self.balances.view()[a] >= 0
        &&& forall|k: (Address, Address)| #[trigger] self.allowances.view().contains_key(k)
            ==> self.allowances.view()[k].amount >= 0
        &&& self.supply == sum_balances(self.balances.entries())
    }

    /// Only `mint` and `burn` change the total supply: it is always the sum
    /// of all balances, none of which is negative.
    pub proof fn law_supply_is_sum_of_balances(&self)
        requires
            self.wf(),
        ensures
            self.supply() == sum_balances(self.holder_entries()),
            forall|i: int, j: int|
                0 <= i < self.holder_entries().len() && 0 <= j < self.holder_entries().len() && i != j
                    ==> self.holder_entries()[i].0 != self.holder_entries()[j].0,
            forall|i: int|
                0 <= i < self.holder_entries().len() ==> self.holder_entries()[i].1 == self.balance_spec(
                    self.holder_entries()[i].0,
                ),
            forall|a: Address| self.balance_spec(a) != 0 ==> exists|i: int|
                0 <= i < self.holder_entries().len() && self.holder_entries()[i].0 == a,
            forall|a: Address| self.balance_spec(a) >= 0,
    {
        assert forall|i: int, j: int|
            0 <= i < self.holder_entries().len() && 0 <= j < self.holder_entries().len() && i != j
                implies self.holder_entries()[i].0 != self.holder_entries()[j].0 by {
            self.balances.lemma_unique(i, j);
        }
        assert forall|i: int| 0 <= i < self.holder_entries().len() implies self.holder_entries()[i].1
            == self.balance_spec(self.holder_entries()[i].0) by {
            self.balances.lemma_entry(i);
        }
        assert forall|a: Address| self.balance_spec(a) != 0 implies exists|i: int|
            0 <= i < self.holder_entries().len() && self.holder_entries()[i].0 == a by {
            self.balances.lemma_key_index(a);
            let i = self.balances.key_index(a);
            assert(self.holder_entries()[i].0 == a);
        }
    }

    proof fn lemma_balance_le_supply(&self, a: Address)
        requires
            self.wf(),
        ensures
            0 <= self.balance_spec(a) <= self.supply(),
            self.supply() >= 0,
    {
        let s = self.balances.entries();
        assert forall|j: int| 0 <= j < s.len() implies s[j].1 >= 0 by {
            self.balances.lemma_entry(j);
        }
        if self.balances.view().contains_key(a) {
            self.balances.lemma_key_index(a);
            self.balances.lemma_entry(self.balances.key_index(a));
            lemma_sum_nonneg_bound(s, self.balances.key_index(a));
        } else if s.len() > 0 {
            lemma_sum_nonneg_bound(s, 0);
        }
    }

    /// The stored lists of pairs: balances and allowances.
    pub closed spec fn stored(&self) -> (Seq<(Address, i128)>, Seq<((Address, Address), Allowance)>) {
        (self.balances.entries(), self.allowances.entries())
    }

    /// Two tokens that store the same lists and settings are in the same
    /// state: saving a token's parts and rebuilding it from them loses
    /// nothing.
    pub proof fn law_same_parts_same_state(&self, other: &Self)
        requires
            self.wf(),
            other.wf(),
            self.stored() == other.stored(),
            self.id() == other.id(),
            self.admin_spec() == other.admin_spec(),
        ensures
            self.balances() == other.balances(),
            self.allowances() == other.allowances(),
            self.supply() == other.supply(),
    {
        self.balances.lemma_same_entries_same_view(&other.balances);
        self.allowances.lemma_same_entries_same_view(&other.allowances);
    }

    /// Everything the token stores, for keeping it between calls.
    pub fn into_parts(self) -> (p: TokenParts)
        requires
            self.wf(),
        ensures
            token_parts_valid(p),
            p.id == self.id(),
            p.admin == self.admin_spec(),
            p.supply == self.supply(),
            (p.balances@, p.allowances@) == self.stored(),
    {
        proof {
            assert forall|i: int| 0 <= i < self.balances.entries().len() implies self.balances.entries()[i].1
                >= 0 by {
                self.balances.lemma_entry(i);
            }
            assert forall|i: int| 0 <= i < self.allowances.entries().len() implies self.allowances.entries()[
            i].1.amount >= 0 by {
                self.allowances.lemma_entry(i);
            }
        }
        let balances = self.balances.into_pairs();
        let allowances = self.allowances.into_pairs();
        TokenParts { id: self.id, admin: self.admin, balances, allowances, supply: self.supply }
    }

    /// Rebuilds a token from stored parts; `None` when they are not
    /// consistent.
    pub fn from_parts(p: TokenParts) -> (r: Option<Self>)
        ensures
            r is Some <==> token_parts_valid(p),
            r matches Some(t) ==> t.wf() && t.id() == p.id && t.admin_spec() == p.admin && t.supply()
                == p.supply && t.stored() == (p.balances@, p.allowances@),
    {
        let ghost bs = p.balances@;
        let mut acc: i128 = 0;
        let mut i: usize = 0;
        while i < p.balances.len()
            invariant
                bs == p.balances@,
                i <= bs.len(),
                forall|j: int| 0 <= j < i ==> bs[j].1 >= 0,
                acc == sum_balances(bs.take(i as int)),
                acc >= 0,
            decreases bs.len() - i,
        {
            let b = p.balances[i].1;
            if b < 0 {
                return None;
            }
            proof {
                assert(bs.take(i + 1).drop_last() =~= bs.take(i as int));
            }
            if acc > i128::MAX - b {
                proof {
                    assert(sum_balances(bs.take(i + 1)) > i128::MAX);
                    if forall|j: int| 0 <= j < bs.len() ==> bs[j].1 >= 0 {
                        lemma_sum_prefix_le(bs, i + 1);
                    }
                }
                return None;
            }
            acc = acc + b;
            i += 1;
        }
        proof {
            assert(bs.take(bs.len() as int) =~= bs);
        }
        if acc != p.supply {
            return None;
        }
        let mut k: usize = 0;
        while k < p.allowances.len()
            invariant
                k <= p.allowances@.len(),
                forall|j: int| 0 <= j < k ==> p.allowances@[j].1.amount >= 0,
            decreases p.allowances@.len() - k,
        {
            if p.allowances[k].1.amount < 0 {
                return None;
            }
            k += 1;
        }
        let TokenParts { id, admin, balances, allowances, supply } = p;
        let balances = AssocMap::from_pairs(balances);
        let allowances = AssocMap::from_pairs(allowances);
        match (balances, allowances) {
            (Some(balances), Some(allowances)) => {
                let t = TycoonToken { id, admin, balances, allowances, supply };
                proof {
                    assert forall|a: Address| #[trigger] t.balances.view().contains_key(a) implies t.balances.view()[a]
                        >= 0 by {
                        t.balances.lemma_key_index(a);
                        t.balances.lemma_entry(t.balances.key_index(a));
                    }
                    assert forall|k2: (Address, Address)| #[trigger] t.allowances.view().contains_key(k2) implies t.allowances.view()[k2].amount
                        >= 0 by {
                        t.allowances.lemma_key_index(k2);
                        t.allowances.lemma_entry(t.allowances.key_index(k2));
                    }
                }
                Some(t)
            },
            _ => None,
        }
    }

    /// A token contract at address `id`, not yet initialized.
    pub fn new(id: Address) -> (t: Self)
        ensures
            t.wf(),
            t.id() == id,
            t.admin_spec() is None,
            t.supply() == 0,
            t.balances() == Map::<Address, i128>::empty(),
            t.allowances() == Map::<(Address, Address), Allowance>::empty(),
    {
        TycoonToken {
            id,
            admin: None,
            balances: AssocMap::new(),
            allowances: AssocMap::new(),
            supply: 0,
        }
    }

    pub fn contract_id(&self) -> (a: Address)
        ensures
            a == self.id(),
    {
        self.id
    }

    pub fn name(&self) -> (s: &'static str)
        ensures
            s@ == "Tycoon"@,
    {
        "Tycoon"
    }

    pub fn symbol(&self) -> (s: &'static str)
        ensures
            s@ == "TYC"@,
    {
        "TYC"
    }

    pub fn decimals(&self) -> (d: u32)
        ensures
            d == 18,
    {
        18
    }

    /// Sets the admin and mints `initial_supply` to it; only once.
    pub fn initialize(&mut self, admin: Address, initial_supply: i128) -> (r: Result<(), TokenError>)
        requires
            old(self).wf(),
        ensures
            final(self).wf(),
            final(self).id() == old(self).id(),
            r is Ok <==> old(self).admin_spec() is None && initial_supply >= 0 && old(self).supply()
                + initial_supply <= i128::MAX,
            r is Ok ==> final(self).admin_spec() == Some(admin) && final(self).supply() == old(self).supply() + initial_supply && final(self).balances() == (if initial_supply == 0 {
                old(self).balances()
            } else {
                old(self).balances().insert(admin, (old(self).balance_spec(admin) + initial_supply) as i128)
            }) && final(self).allowances() == old(self).allowances(),
            r matches Err(e) ==> *final(self) == *old(self) && e == (if old(self).admin_spec() is Some {
                TokenError::AlreadyInitialized
            } else if initial_supply < 0 {
                TokenError::NegativeAmount
            } else {
                TokenError::Overflow
            }),
    {
        proof {
            self.lemma_balance_le_supply(admin);
        }
        if self.admin.is_some() {
            return Err(TokenError::AlreadyInitialized);
        }
        if initial_supply < 0 {
            return Err(TokenError::NegativeAmount);
        }
        if initial_supply > i128::MAX - self.supply {
            return Err(TokenError::Overflow);
        }
        self.credit(admin, initial_supply);
        self.admin = Some(admin);
        Ok(())
    }

    /// Adds `amount` to `to` and to the supply.
    fn credit(&mut self, to: Address, amount: i128)
        requires
            old(self).wf(),
            amount >= 0,
            old(self).supply() + amount <= i128::MAX,
        ensures
            final(self).wf(),
            final(self).supply() == old(self).supply() + amount,
            final(self).balances() == (if amount == 0 {
                old(self).balances()
            } else {
                old(self).balances().insert(to, (old(self).balance_spec(to) + amount) as i128)
            }),
            final(self).id() == old(self).id(),
            final(self).admin_spec() == old(self).admin_spec(),
            final(self).allowances() == old(self).allowances(),
    {
        if amount == 0 {
            return;
        }
        proof {
            self.lemma_balance_le_supply(to);
        }
        let cur = self.balance(to);
        let ghost old_entries = self.balances.entries();
        let ghost existed = self.balances.view().contains_key(to);
        let ghost idx = self.balances.key_index(to);
        proof {
            if existed {
                self.balances.lemma_key_index(to);
                self.balances.lemma_entry(idx);
            }
        }
        self.balances.insert(to, cur + amount);
        self.supply = self.supply + amount;
        proof {
            if existed {
                lemma_sum_update(old_entries, idx, (to, (cur + amount) as i128));
            } else {
                assert(self.balances.entries().drop_last() =~= old_entries);
            }
        }
    }

    /// Takes `amount` from `from` and from the supply.
    fn debit(&mut self, from: Address, amount: i128)
        requires
            old(self).wf(),
            0 <= amount <= old(self).balance_spec(from),
        ensures
            final(self).wf(),
            final(self).supply() == old(self).supply() - amount,
            final(self).balances() == (if amount == 0 {
                old(self).balances()
            } else {
                old(self).balances().insert(from, (old(self).balance_spec(from) - amount) as i128)
            }),
            final(self).id() == old(self).id(),
            final(self).admin_spec() == old(self).admin_spec(),
            final(self).allowances() == old(self).allowances(),
    {
        if amount == 0 {
            return;
        }
        proof {
            self.lemma_balance_le_supply(from);
        }
        let cur = self.balance(from);
        let ghost old_entries = self.balances.entries();
        let ghost idx = self.balances.key_index(from);
        proof {
            self.balances.lemma_key_index(from);
            self.balances.lemma_entry(idx);
        }
        self.balances.insert(from, cur - amount);
        self.supply = self.supply - amount;
        proof {
            lemma_sum_update(old_entries, idx, (from, (cur - amount) as i128));
        }
    }

    pub fn admin(&self) -> (a: Option<Address>)
        ensures
            a == self.admin_spec(),
    {
        self.admin
    }

    pub fn balance(&self, a: Address) -> (b: i128)
        requires
            self.wf(),
        ensures
            b == self.balance_spec(a),
    {
        match self.balances.get(&a) {
            Some(v) => *v,
            None => 0,
        }
    }

    pub fn total_supply(&self) -> (s: i128)
        ensures
            s == self.supply(),
    {
        self.supply
    }

    /// Hands the admin role to `new_admin`; only the admin may.
    pub fn set_admin(&mut self, caller: Address, new_admin: Address) -> (r: Result<(), TokenError>)
        requires
            old(self).wf(),
        ensures
            final(self).wf(),
            r is Ok <==> old(self).admin_spec() == Some(caller),
            r is Ok ==> final(self).admin_spec() == Some(new_admin) && final(self).supply() == old(self).supply() && final(self).balances() == old(self).balances() && final(self).allowances()
                == old(self).allowances() && final(self).id() == old(self).id(),
            r matches Err(e) ==> *final(self) == *old(self) && e == (if old(self).admin_spec() is None {
                TokenError::NotInitialized
            } else {
                TokenError::Unauthorized
            }),
    {
        match self.admin {
            None => Err(TokenError::NotInitialized),
            Some(a) => {
                if a != caller {
                    return Err(TokenError::Unauthorized);
                }
                self.admin = Some(new_admin);
                Ok(())
            },
        }
    }

    /// Creates `amount` new tokens for `to`; only the admin may.
    pub fn mint(&mut self, caller: Address, to: Address, amount: i128) -> (r: Result<(), TokenError>)
        requires
            old(self).wf(),
        ensures
            final(self).wf(),
            r is Ok <==> old(self).admin_spec() == Some(caller) && amount >= 0 && old(self).supply()
                + amount <= i128::MAX,
            r is Ok ==> final(self).supply() == old(self).supply() + amount && final(self).balance_spec(
                to,
            ) == old(self).balance_spec(to) + amount && (forall|a: Address|
                a != to ==> final(self).balance_spec(a) == old(self).balance_spec(a)) && final(self).admin_spec() == old(self).admin_spec() && final(self).allowances() == old(self).allowances() && final(self).id() == old(self).id(),
            r matches Err(e) ==> *final(self) == *old(self) && e == (if old(self).admin_spec() is None {
                TokenError::NotInitialized
            } else if old(self).admin_spec() != Some(caller) {
                TokenError::Unauthorized
            } else if amount < 0 {
                TokenError::NegativeAmount
            } else {
                TokenError::Overflow
            }),
    {
        match self.admin {
            None => {
                return Err(TokenError::NotInitialized);
            },
            Some(a) => {
                if a != caller {
                    return Err(TokenError::Unauthorized);
                }
            },
        }
        if amount < 0 {
            return Err(TokenError::NegativeAmount);
        }
        proof {
            self.lemma_balance_le_supply(to);
        }
        if amount > i128::MAX - self.supply {
            return Err(TokenError::Overflow);
        }
        self.credit(to, amount);
        Ok(())
    }

    /// Moves `amount` from `from` to `to`; the supply does not change.
    pub fn transfer(&mut self, from: Address, to: Address, amount: i128) -> (r: Result<(), TokenError>)
        requires
            old(self).wf(),
        ensures
            final(self).wf(),
            r is Ok <==> 0 <= amount <= old(self).balance_spec(from),
            r is Ok ==> transferred(*old(self), *final(self), from, to, amount as int) && final(self).allowances() == old(self).allowances(),
            r matches Err(e) ==> *final(self) == *old(self) && e == (if amount < 0 {
                TokenError::NegativeAmount
            } else {
                TokenError::InsufficientBalance
            }),
    {
        if amount < 0 {
            return Err(TokenError::NegativeAmount);
        }
        let bal = self.balance(from);
        if amount > bal {
            return Err(TokenError::InsufficientBalance);
        }
        self.move_balance(from, to, amount);
        Ok(())
    }

    fn move_balance(&mut self, from: Address, to: Address, amount: i128)
        requires
            old(self).wf(),
            0 <= amount <= old(self).balance_spec(from),
        ensures
            final(self).wf(),
            transferred(*old(self), *final(self), from, to, amount as int),
            final(self).allowances() == old(self).allowances(),
    {
        self.debit(from, amount);
        proof {
            self.lemma_balance_le_supply(to);
        }
        self.credit(to, amount);
    }

    /// Destroys `amount` of `from`'s tokens.
    pub fn burn(&mut self, from: Address, amount: i128) -> (r: Result<(), TokenError>)
        requires
            old(self).wf(),
        ensures
            final(self).wf(),
            r is Ok <==> 0 <= amount <= old(self).balance_spec(from),
            r is Ok ==> final(self).supply() == old(self).supply() - amount && final(self).balance_spec(
                from,
            ) == old(self).balance_spec(from) - amount && (forall|a: Address|
                a != from ==> final(self).balance_spec(a) == old(self).balance_spec(a)) && final(self).admin_spec() == old(self).admin_spec() && final(self).allowances() == old(self).allowances() && final(self).id() == old(self).id(),
            r matches Err(e) ==> *final(self) == *old(self) && e == (if amount < 0 {
                TokenError::NegativeAmount
            } else {
                TokenError::InsufficientBalance
            }),
    {
        if amount < 0 {
            return Err(TokenError::NegativeAmount);
        }
        let bal = self.balance(from);
        if amount > bal {
            return Err(TokenError::InsufficientBalance);
        }
        self.debit(from, amount);
        Ok(())
    }

    /// What `spender` may move from `owner` at `ledger`; zero once lapsed.
    pub fn allowance(&self, owner: Address, spender: Address, ledger: u32) -> (a: i128)
        requires
            self.wf(),
        ensures
            a == self.allowance_spec(owner, spender, ledger),
    {
        match self.allowances.get(&(owner, spender)) {
            Some(al) => {
                if al.expiration_ledger >= ledger {
                    al.amount
                } else {
                    0
                }
            },
            None => 0,
        }
    }

    /// Lets `spender` move up to `amount` of `owner`'s tokens until
    /// `expiration_ledger`, replacing any earlier allowance.
    pub fn approve(
        &mut self,
        owner: Address,
        spender: Address,
        amount: i128,
        expiration_ledger: u32,
        ledger: u32,
    ) -> (r: Result<(), TokenError>)
        requires
            old(self).wf(),
        ensures
            final(self).wf(),
            r is Ok <==> amount >= 0 && (amount == 0 || expiration_ledger >= ledger),
            r is Ok ==> final(self).allowances() == old(self).allowances().insert(
                (owner, spender),
                Allowance { amount, expiration_ledger },
            ) && final(self).balances() == old(self).balances() && final(self).supply() == old(self).supply() && final(self).admin_spec() == old(self).admin_spec() && final(self).id() == old(self).id(),
            r matches Err(e) ==> *final(self) == *old(self) && e == (if amount < 0 {
                TokenError::NegativeAmount
            } else {
                TokenError::InvalidExpiration
            }),
    {
        if amount < 0 {
            return Err(TokenError::NegativeAmount);
        }
        if amount > 0 && expiration_ledger < ledger {
            return Err(TokenError::InvalidExpiration);
        }
        self.allowances.insert((owner, spender), Allowance { amount, expiration_ledger });
        Ok(())
    }

    /// Spends `amount` of the allowance `owner` gave `spender`.
    fn spend_allowance(&mut self, owner: Address, spender: Address, amount: i128, ledger: u32)
        requires
            old(self).wf(),
            0 <= amount <= old(self).allowance_spec(owner, spender, ledger),
        ensures
            final(self).wf(),
            final(self).balances() == old(self).balances(),
            final(self).supply() == old(self).supply(),
            final(self).admin_spec() == old(self).admin_spec(),
            final(self).id() == old(self).id(),
            final(self).allowance_spec(owner, spender, ledger) == old(self).allowance_spec(
                owner,
                spender,
                ledger,
            ) - amount,
            final(self).allowances() == allowances_after_spend(
                old(self).allowances(),
                owner,
                spender,
                amount as int,
            ),
    {
        if amount == 0 {
            return;
        }
        let al = *self.allowances.get(&(owner, spender)).unwrap();
        self.allowances.insert(
            (owner, spender),
            Allowance { amount: al.amount - amount, expiration_ledger: al.expiration_ledger },
        );
    }

    /// `spender` moves `amount` from `from` to `to` out of its allowance.
    pub fn transfer_from(
        &mut self,
        spender: Address,
        from: Address,
        to: Address,
        amount: i128,
        ledger: u32,
    ) -> (r: Result<(), TokenError>)
        requires
            old(self).wf(),
        ensures
            final(self).wf(),
            r is Ok <==> 0 <= amount <= old(self).allowance_spec(from, spender, ledger) && amount <= old(self).balance_spec(from),
            r is Ok ==> transferred(*old(self), *final(self), from, to, amount as int)
                && final(self).allowance_spec(from, spender, ledger) == old(self).allowance_spec(
                from,
                spender,
                ledger,
            ) - amount,
            r is Ok ==> final(self).allowances() == allowances_after_spend(
                old(self).allowances(),
                from,
                spender,
                amount as int,
            ),
            r matches Err(e) ==> *final(self) == *old(self) && e == (if amount < 0 {
                TokenError::NegativeAmount
            } else if amount > old(self).allowance_spec(from, spender, ledger) {
                TokenError::InsufficientAllowance
            } else {
                TokenError::InsufficientBalance
            }),
    {
        if amount < 0 {
            return Err(TokenError::NegativeAmount);
        }
        let allowed = self.allowance(from, spender, ledger);
        if amount > allowed {
            return Err(TokenError::InsufficientAllowance);
        }
        let bal = self.balance(from);
        if amount > bal {
            return Err(TokenError::InsufficientBalance);
        }
        self.spend_allowance(from, spender, amount, ledger);
        self.move_balance(from, to, amount);
        Ok(())
    }

    /// `spender` destroys `amount` of `from`'s tokens out of its allowance.
    pub fn burn_from(&mut self, spender: Address, from: Address, amount: i128, ledger: u32) -> (r: Result<
        (),
        TokenError,
    >)
        requires
            old(self).wf(),
        ensures
            final(self).wf(),
            r is Ok <==> 0 <= amount <= old(self).allowance_spec(from, spender, ledger) && amount <= old(self).balance_spec(from),
            r is Ok ==> final(self).supply() == old(self).supply() - amount && final(self).balance_spec(
                from,
            ) == old(self).balance_spec(from) - amount && (forall|a: Address|
                a != from ==> final(self).balance_spec(a) == old(self).balance_spec(a))
                && final(self).allowance_spec(from, spender, ledger) == old(self).allowance_spec(
                from,
                spender,
                ledger,
            ) - amount,
            r is Ok ==> final(self).allowances() == allowances_after_spend(
                old(self).allowances(),
                from,
                spender,
                amount as int,
            ) && final(self).admin_spec() == old(self).admin_spec() && final(self).id() == old(self).id(),
            r matches Err(e) ==> *final(self) == *old(self) && e == (if amount < 0 {
                TokenError::NegativeAmount
            } else if amount > old(self).allowance_spec(from, spender, ledger) {
                TokenError::InsufficientAllowance
            } else {
                TokenError::InsufficientBalance
            }),
    {
        if amount < 0 {
            return Err(TokenError::NegativeAmount);
        }
        let allowed = self.allowance(from, spender, ledger);
        if amount > allowed {
            return Err(TokenError::InsufficientAllowance);
        }
        let bal = self.balance(from);
        if amount > bal {
            return Err(TokenError::InsufficientBalance);
        }
        self.spend_allowance(from, spender, amount, ledger);
        self.debit(from, amount);
        Ok(())
    }
}

/// The allowances once `spender` has spent `amount` of what `owner` allowed
/// it: that one pair keeps its expiration and loses `amount`; every other
/// pair is as it was.
pub open spec fn allowances_after_spend(
    allowances: Map<(Address, Address), Allowance>,
    owner: Address,
    spender: Address,
    amount: int,
) -> Map<(Address, Address), Allowance> {
    if amount == 0 {
        allowances
    } else {
        allowances.insert(
            (owner, spender),
            Allowance {
                amount: (allowances[(owner, spender)].amount - amount) as i128,
                expiration_ledger: allowances[(owner, spender)].expiration_ledger,
            },
        )
    }
}

/// An approval reads back in full at every ledger up to and including its
/// expiration ledger and as 0 after it; every other pair's allowance is as
/// it was.
pub proof fn law_approval_reads_back(
    before: TycoonToken,
    after: TycoonToken,
    owner: Address,
    spender: Address,
    amount: i128,
    expiration_ledger: u32,
    ledger: u32,
    other_owner: Address,
    other_spender: Address,
)
    requires
        after.allowances() == before.allowances().insert(
            (owner, spender),
            Allowance { amount, expiration_ledger },
        ),
    ensures
        after.allowance_spec(owner, spender, ledger) == (if ledger <= expiration_ledger {
            amount as int
        } else {
            0
        }),
        (other_owner, other_spender) != (owner, spender) ==> after.allowance_spec(
            other_owner,
            other_spender,
            ledger,
        ) == before.allowance_spec(other_owner, other_spender, ledger),
{
}

/// `after` is `before` with `amount` moved from `from` to `to`: the supply,
/// the admin and every other balance are as they were (when `from == to`,
/// nothing changes).
pub open spec fn transferred(before: TycoonToken, after: TycoonToken, from: Address, to: Address, amount: int) -> bool {
    &&& after.supply() == before.supply()
    &&& after.id() == before.id()
    &&& after.admin_spec() == before.admin_spec()
    &&& forall|a: Address| #[trigger] after.balance_spec(a) == before.balance_spec(a) - (if a == from {
        amount
    } else {
        0
    }) + (if a == to {
        amount
    } else {
        0
    })
}

} // verus!
