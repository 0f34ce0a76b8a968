//! Semi-fungible balances: how many copies of each token id an address
//! holds. Only non-zero balances are stored, so an address owns a token id
//! exactly when a balance entry for it exists, and the number of token ids an
//! address owns follows every mint and burn.
use vstd::prelude::*;

use crate::assoc::AssocMap;
use crate::Address;

verus! {

/// Why a balance change was refused.
#[derive(Debug, Clone, Copy, PartialEq, Eq, Structural)]
pub enum LedgerError {
    /// The holder has fewer copies than the amount asked for.
    InsufficientBalance,
    /// The new balance would not fit in a `u64`.
    Overflow,
}

/// Pairs a ledger can be rebuilt from: no `(owner, token_id)` twice and no
/// zero balance.
pub open spec fn valid_balance_pairs(s: Seq<((Address, u128), u64)>) -> bool {
    &&& forall|i: int, j: int| 0 <= i < s.len() && 0 <= j < s.len() && i != j ==> s[i].0 != s[j].0
    &&& forall|i: int| 0 <= i < s.len() ==> s[i].1 > 0
}

/// Balances of `(owner, token_id)` pairs; zero balances are not stored.
pub struct MultiTokenLedger {
    balances: AssocMap<(Address, u128), u64>,
}

/// The token ids that `owner` holds at least one copy of in `m`.
pub open spec fn owned_in(m: Map<(Address, u128), u64>, owner: Address) -> Set<u128> {
    Set::new(|t: u128| m.contains_key((owner, t)))
}

/// The balance that `m` records for `(owner, token_id)`, zero when absent.
pub open spec fn balance_in(m: Map<(Address, u128), u64>, owner: Address, token_id: u128) -> nat {
    if m.contains_key((owner, token_id)) {
        m[(owner, token_id)] as nat
    } else {
        0
    }
}

/// The map after adding `amount` copies of `token_id` to `owner`.
pub open spec fn minted(m: Map<(Address, u128), u64>, owner: Address, token_id: u128, amount: nat) -> Map<
    (Address, u128),
    u64,
> {
    if amount == 0 {
        m
    } else {
        m.insert((owner, token_id), (balance_in(m, owner, token_id) + amount) as u64)
    }
}

/// The map after removing `amount` copies of `token_id` from `owner`
/// (meaningful when the owner holds at least `amount`).
pub open spec fn burned(m: Map<(Address, u128), u64>, owner: Address, token_id: u128, amount: nat) -> Map<
    (Address, u128),
    u64,
> {
    if amount == 0 {
        m
    } else if balance_in(m, owner, token_id) == amount {
        m.remove((owner, token_id))
    } else {
        m.insert((owner, token_id), (balance_in(m, owner, token_id) - amount) as u64)
    }
}

impl View for MultiTokenLedger {
    type V = Map<(Address, u128), u64>;

    /// The non-zero balances.
    closed spec fn view(&self) -> Map<(Address, u128), u64> {
        self.balances.view()
    }
}

impl MultiTokenLedger {

    pub closed spec fn wf(&self) -> bool {
        &&& self.balances.wf()
        &&& forall|k: (Address, u128)| #[trigger] self.balances.view().contains_key(k) ==> self.balances.view()[k] > 0
    }

    pub open spec fn balance(&self, owner: Address, token_id: u128) -> nat {
        balance_in(self.view(), owner, token_id)
    }

    pub open spec fn owned(&self, owner: Address) -> Set<u128> {
        owned_in(self.view(), owner)
    }

    /// The number of distinct token ids `owner` holds.
    pub open spec fn owned_count(&self, owner: Address) -> nat {
        self.owned(owner).len()
    }

    /// Every stored balance is positive, and the token ids of an owner form a
    /// finite set.
    pub proof fn lemma_wf(&self, owner: Address)
        requires
            self.wf(),
        ensures
            self.view().dom().finite(),
            self.owned(owner).finite(),
            forall|k: (Address, u128)| #[trigger] self.view().contains_key(k) ==> self.view()[k] > 0,
    {
        self.balances.lemma_finite();
        lemma_owned_finite(self.view(), owner);
    }

    pub fn new() -> (l: Self)
        ensures
            l.wf(),
            l.view() == Map::<(Address, u128), u64>::empty(),
            forall|o: Address| #[trigger] l.owned_count(o) == 0,
    {
        let l = MultiTokenLedger { balances: AssocMap::new() };
        proof {
            assert forall|o: Address| #[trigger] l.owned_count(o) == 0 by {
                assert(owned_in(l.view(), o) =~= Set::<u128>::empty());
            }
        }
        l
    }

    /// The stored `((owner, token_id), balance)` pairs, in storage order.
    pub closed spec fn stored(&self) -> Seq<((Address, u128), u64)> {
        self.balances.entries()
    }

    /// Two ledgers storing the same pairs hold the same balances.
    pub proof fn lemma_same_stored_same_view(&self, other: &Self)
        requires
            self.wf(),
            other.wf(),
            self.stored() == other.stored(),
        ensures
            self.view() == other.view(),
    {
        self.balances.lemma_same_entries_same_view(&other.balances);
    }

    /// Rebuilds a ledger from stored pairs; `None` when a pair repeats an
    /// `(owner, token_id)` or holds a zero balance.
    pub fn from_pairs(pairs: Vec<((Address, u128), u64)>) -> (r: Option<Self>)
        ensures
            r is Some <==> valid_balance_pairs(pairs@),
            r matches Some(l) ==> l.wf() && l.stored() == pairs@,
    {
        let mut i: usize = 0;
        while i < pairs.len()
            invariant
                i <= pairs@.len(),
                forall|j: int| 0 <= j < i ==> pairs@[j].1 > 0,
            decreases pairs@.len() - i,
        {
            if pairs[i].1 == 0 {
                return None;
            }
            i += 1;
        }
        let ghost all = pairs@;
        match AssocMap::from_pairs(pairs) {
            None => None,
            Some(m) => {
                let l = MultiTokenLedger { balances: m };
                proof {
                    assert forall|k: (Address, u128)| #[trigger] l.balances.view().contains_key(k) implies l.balances.view()[k] > 0 by {
                        l.balances.lemma_key_index(k);
                        l.balances.lemma_entry(l.balances.key_index(k));
                    }
                }
                Some(l)
            },
        }
    }

    /// The stored pairs, in storage order.
    pub fn into_pairs(self) -> (pairs: Vec<((Address, u128), u64)>)
        requires
            self.wf(),
        ensures
            pairs@ == self.stored(),
            valid_balance_pairs(pairs@),
    {
        proof {
            assert forall|i: int, j: int|
                0 <= i < self.stored().len() && 0 <= j < self.stored().len() && i != j implies self.stored()[i].0
                    != self.stored()[j].0 by {
                self.balances.lemma_unique(i, j);
            }
            assert forall|i: int| 0 <= i < self.stored().len() implies self.stored()[i].1 > 0 by {
                self.balances.lemma_entry(i);
            }
        }
        self.balances.into_pairs()
    }

    pub fn balance_of(&self, owner: Address, token_id: u128) -> (b: u64)
        requires
            self.wf(),
        ensures
            b == self.balance(owner, token_id),
    {
        match self.balances.get(&(owner, token_id)) {
            Some(v) => *v,
            None => 0,
        }
    }

    /// Adds `amount` copies of `token_id` to `owner`; a zero amount changes
    /// nothing.
    pub fn mint(&mut self, owner: Address, token_id: u128, amount: u64) -> (r: Result<(), LedgerError>)
        requires
            old(self).wf(),
        ensures
            final(self).wf(),
            r is Ok <==> old(self).balance(owner, token_id) + amount <= u64::MAX,
            r is Ok ==> final(self).view() == minted(old(self).view(), owner, token_id, amount as nat),
            r is Err ==> r == Err::<(), LedgerError>(LedgerError::Overflow) && *final(self) == *old(self),
    {
        let cur = self.balance_of(owner, token_id);
        if amount > u64::MAX - cur {
            return Err(LedgerError::Overflow);
        }
        if amount == 0 {
            return Ok(());
        }
        self.balances.insert((owner, token_id), cur + amount);
        Ok(())
    }

    /// Removes `amount` copies of `token_id` from `owner`; a zero amount
    /// changes nothing, and a balance that reaches zero is deleted.
    pub fn burn(&mut self, owner: Address, token_id: u128, amount: u64) -> (r: Result<(), LedgerError>)
        requires
            old(self).wf(),
        ensures
            final(self).wf(),
            r is Ok <==> amount <= old(self).balance(owner, token_id),
            r is Ok ==> final(self).view() == burned(old(self).view(), owner, token_id, amount as nat),
            r is Err ==> r == Err::<(), LedgerError>(LedgerError::InsufficientBalance) && *final(self) == *old(self),
    {
        let cur = self.balance_of(owner, token_id);
        if amount > cur {
            return Err(LedgerError::InsufficientBalance);
        }
        if amount == 0 {
            return Ok(());
        }
        if amount == cur {
            self.balances.remove(&(owner, token_id));
        } else {
            self.balances.insert((owner, token_id), cur - amount);
        }
        Ok(())
    }

    /// Moves `amount` copies of `token_id` from `from` to `to`.
    pub fn transfer(&mut self, from: Address, to: Address, token_id: u128, amount: u64) -> (r: Result<
        (),
        LedgerError,
    >)
        requires
            old(self).wf(),
        ensures
            final(self).wf(),
            r is Ok <==> amount <= old(self).balance(from, token_id) && (from == to || old(self).balance(to, token_id) + amount <= u64::MAX),
            r is Ok ==> final(self).view() == minted(
                burned(old(self).view(), from, token_id, amount as nat),
                to,
                token_id,
                amount as nat,
            ),
            r matches Err(e) ==> *final(self) == *old(self) && (e == LedgerError::InsufficientBalance
                <==> amount > old(self).balance(from, token_id)),
    {
        let from_bal = self.balance_of(from, token_id);
        if amount > from_bal {
            return Err(LedgerError::InsufficientBalance);
        }
        if from != to {
            let to_bal = self.balance_of(to, token_id);
            if amount > u64::MAX - to_bal {
                return Err(LedgerError::Overflow);
            }
        }
        let ghost mid = burned(self.view(), from, token_id, amount as nat);
        let b = self.burn(from, token_id, amount);
        assert(b is Ok);
        assert(self.balance(to, token_id) + amount <= u64::MAX);
        let m = self.mint(to, token_id, amount);
        assert(m is Ok);
        Ok(())
    }

    /// The token ids `owner` holds, each once, in storage order.
    pub fn tokens_of(&self, owner: Address) -> (ids: Vec<u128>)
        requires
            self.wf(),
        ensures
            ids@.no_duplicates(),
            ids@.to_set() == self.owned(owner),
            ids@.len() == self.owned_count(owner),
    {
        let mut ids: Vec<u128> = Vec::new();
        let n = self.balances.len();
        let mut i: usize = 0;
        while i < n
            invariant
                self.wf(),
                n == self.balances.entries().len(),
                i <= n,
                ids@.no_duplicates(),
                forall|t: u128|
                    ids@.contains(t) <==> exists|j: int|
                        0 <= j < i && #[trigger] self.balances.entries()[j].0 == (owner, t),
            decreases n - i,
        {
            let e = self.balances.entry_at(i);
            if e.0.0 == owner {
                let t = e.0.1;
                proof {
                    if ids@.contains(t) {
                        let j = choose|j: int| 0 <= j < i && #[trigger] self.balances.entries()[j].0 == (owner, t);
                        self.balances.lemma_unique(j, i as int);
                    }
                }
                let ghost prev = ids@;
                ids.push(t);
                proof {
                    assert forall|tt: u128|
                        ids@.contains(tt) <==> exists|j: int|
                            0 <= j < i + 1 && #[trigger] self.balances.entries()[j].0 == (owner, tt) by {
                        if tt == t {
                            assert(ids@[ids@.len() - 1] == tt);
                            assert(self.balances.entries()[i as int].0 == (owner, tt));
                        } else {
                            if ids@.contains(tt) {
                                let k = choose|k: int| 0 <= k < ids@.len() && ids@[k] == tt;
                                assert(k < ids@.len() - 1);
                                assert(prev.contains(tt)) by {
                                    assert(prev[k] == tt);
                                }
                            }
                            if exists|j: int|
                                0 <= j < i + 1 && #[trigger] self.balances.entries()[j].0 == (owner, tt) {
                                let j = choose|j: int|
                                    0 <= j < i + 1 && #[trigger] self.balances.entries()[j].0 == (owner, tt);
                                assert(j != i);
                                assert(prev.contains(tt));
                                let k = choose|k: int| 0 <= k < prev.len() && prev[k] == tt;
                                assert(ids@[k] == tt);
                            }
                        }
                    }
                }
            }
            i += 1;
        }
        proof {
            assert forall|t: u128| ids@.to_set().contains(t) <==> self.owned(owner).contains(t) by {
                if ids@.contains(t) {
                    let j = choose|j: int| 0 <= j < n && #[trigger] self.balances.entries()[j].0 == (owner, t);
                    self.balances.lemma_entry(j);
                }
                if self.view().contains_key((owner, t)) {
                    self.balances.lemma_key_index((owner, t));
                    let j = self.balances.key_index((owner, t));
                    assert(self.balances.entries()[j].0 == (owner, t));
                }
            }
            assert(ids@.to_set() =~= self.owned(owner));
            ids@.unique_seq_to_set();
        }
        ids
    }

    /// How many distinct token ids `owner` holds.
    pub fn owned_token_count(&self, owner: Address) -> (c: u64)
        requires
            self.wf(),
        ensures
            c == self.owned_count(owner),
    {
        let ids = self.tokens_of(owner);
        ids.len() as u64
    }
}

/// Minting copies of a token id that an owner did not hold adds one to the
/// number of token ids that owner holds; minting more of a token id already
/// held, or minting nothing, leaves it as it was; other owners' counts do not
/// change.
pub proof fn law_mint_owned_count(l: MultiTokenLedger, owner: Address, token_id: u128, amount: nat, who: Address)
    requires
        l.wf(),
    ensures
        owned_in(minted(l.view(), owner, token_id, amount), who).len() == l.owned_count(who) + (if who
            == owner && amount > 0 && l.balance(owner, token_id) == 0 {
            1int
        } else {
            0int
        }),
{
    l.lemma_wf(who);
    let m = l.view();
    if amount > 0 {
        let v = (balance_in(m, owner, token_id) + amount) as u64;
        if who == owner {
            assert(owned_in(m.insert((owner, token_id), v), who) =~= owned_in(m, who).insert(token_id));
        } else {
            assert(owned_in(m.insert((owner, token_id), v), who) =~= owned_in(m, who));
        }
    }
}

/// Burning every copy of a token id that an owner holds takes one from the
/// number of token ids that owner holds; burning part of a balance, or
/// nothing, leaves it as it was; other owners' counts do not change.
pub proof fn law_burn_owned_count(l: MultiTokenLedger, owner: Address, token_id: u128, amount: nat, who: Address)
    requires
        l.wf(),
        amount <= l.balance(owner, token_id),
    ensures
        owned_in(burned(l.view(), owner, token_id, amount), who).len() == l.owned_count(who) - (if who
            == owner && amount > 0 && l.balance(owner, token_id) == amount {
            1int
        } else {
            0int
        }),
{
    l.lemma_wf(who);
    let m = l.view();
    if amount > 0 {
        if balance_in(m, owner, token_id) == amount {
            if who == owner {
                assert(owned_in(m.remove((owner, token_id)), who) =~= owned_in(m, who).remove(token_id));
            } else {
                assert(owned_in(m.remove((owner, token_id)), who) =~= owned_in(m, who));
            }
        } else {
            let v = (balance_in(m, owner, token_id) - amount) as u64;
            assert(owned_in(m.insert((owner, token_id), v), who) =~= owned_in(m, who));
        }
    }
}

/// Burning what was just minted restores every balance.
pub proof fn law_mint_burn_round_trip(l: MultiTokenLedger, owner: Address, token_id: u128, amount: nat)
    requires
        l.wf(),
        l.balance(owner, token_id) + amount <= u64::MAX,
    ensures
        burned(minted(l.view(), owner, token_id, amount), owner, token_id, amount) == l.view(),
{
    l.lemma_wf(owner);
    let m = l.view();
    if amount > 0 {
        let m1 = minted(m, owner, token_id, amount);
        assert(balance_in(m1, owner, token_id) == balance_in(m, owner, token_id) + amount);
        if balance_in(m, owner, token_id) == 0 {
            assert(m1.remove((owner, token_id)) =~= m);
        } else {
            assert(m1.insert((owner, token_id), balance_in(m, owner, token_id) as u64) =~= m);
        }
    }
}

/// A transfer between two different holders takes `amount` from the sender,
/// gives it to the receiver and leaves every other balance alone.
pub proof fn law_transfer_moves_balance(
    l: MultiTokenLedger,
    from: Address,
    to: Address,
    token_id: u128,
    amount: nat,
    owner: Address,
    t: u128,
)
    requires
        l.wf(),
        from != to,
        amount <= l.balance(from, token_id),
        l.balance(to, token_id) + amount <= u64::MAX,
    ensures
        ({
            let after = minted(burned(l.view(), from, token_id, amount), to, token_id, amount);
            balance_in(after, owner, t) == if t == token_id && owner == from {
                l.balance(from, token_id) - amount
            } else if t == token_id && owner == to {
                l.balance(to, token_id) + amount as int
            } else {
                l.balance(owner, t) as int
            }
        }),
{
    l.lemma_wf(owner);
    let m = l.view();
    let mid = burned(m, from, token_id, amount);
    assert(balance_in(mid, to, token_id) == balance_in(m, to, token_id));
    assert(balance_in(mid, from, token_id) == balance_in(m, from, token_id) - amount);
    assert((owner, t) != (from, token_id) ==> balance_in(mid, owner, t) == balance_in(m, owner, t));
}

/// The token ids of one owner are finite when the whole map is.
pub proof fn lemma_owned_finite(m: Map<(Address, u128), u64>, owner: Address)
    requires
        m.dom().finite(),
    ensures
        owned_in(m, owner).finite(),
{
    let f = |k: (Address, u128)| k.1;
    let s = m.dom().filter(|k: (Address, u128)| k.0 == owner);
    m.dom().lemma_len_filter(|k: (Address, u128)| k.0 == owner);
    s.lemma_map_finite(f);
    assert forall|t: u128| s.map(f).contains(t) <==> owned_in(m, owner).contains(t) by {
        if owned_in(m, owner).contains(t) {
            assert(s.contains((owner, t)));
            assert(f((owner, t)) == t);
        }
    }
    assert(s.map(f) =~= owned_in(m, owner));
}

} // verus!
