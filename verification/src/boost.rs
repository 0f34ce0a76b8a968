//! The boost system: players collect boosts that raise a base value of
//! 10000 basis points, additively (`+value` basis points) or
//! multiplicatively (`×value/10000`), until the ledger at which each expires.
//!
//! Expiry is inclusive: a boost with `expires_at_ledger = N` counts only while
//! the current ledger is below `N`; `expires_at_ledger = 0` never expires.
use vstd::prelude::*;

use crate::assoc::{unique_keys, AssocMap};
use crate::Address;

verus! {

/// The boost total of a player with no active boost.
pub const BASE_BOOST: u32 = 10000;

#[derive(Debug, Clone, Copy, PartialEq, Eq, Structural)]
pub enum BoostType {
    /// Adds `value` basis points.
    Additive,
    /// Multiplies by `value / 10000`.
    Multiplicative,
}

#[derive(Debug, Clone, Copy, PartialEq, Eq, Structural)]
pub struct Boost {
    pub id: u128,
    pub boost_type: BoostType,
    pub value: u32,
    pub priority: u32,
    /// The first ledger at which the boost no longer counts; 0 for never.
    pub expires_at_ledger: u32,
}

/// Why a boost operation was refused.
#[derive(Debug, Clone, Copy, PartialEq, Eq, Structural)]
pub enum BoostError {
    AlreadyInitialized,
    NotInitialized,
    /// The caller is not the admin.
    Unauthorized,
    /// The boost would already have expired when added.
    InvalidExpiry,
    /// The boost total does not fit in a `u32`.
    Overflow,
}

/// A boost counts at `ledger` when it never expires or `ledger` is still
/// below its expiry.
pub open spec fn spec_is_active(b: Boost, ledger: u32) -> bool {
    b.expires_at_ledger == 0 || ledger < b.expires_at_ledger
}

pub open spec fn active_pred(ledger: u32) -> spec_fn(Boost) -> bool {
    |b: Boost| spec_is_active(b, ledger)
}

/// The product of the active multiplicative boosts applied in order to the
/// base, rounding down after each step; `None` once a step exceeds `u32`.
pub open spec fn mult_total(s: Seq<Boost>, ledger: u32) -> Option<int>
    decreases s.len(),
{
    if s.len() == 0 {
        Some(BASE_BOOST as int)
    } else {
        match mult_total(s.drop_last(), ledger) {
            None => None,
            Some(m) => {
                let b = s.last();
                if spec_is_active(b, ledger) && b.boost_type == BoostType::Multiplicative {
                    let m2 = m * b.value / 10000;
                    if m2 > u32::MAX {
                        None
                    } else {
                        Some(m2)
                    }
                } else {
                    Some(m)
                }
            },
        }
    }
}

/// The sum of the values of the active additive boosts.
pub open spec fn add_total(s: Seq<Boost>, ledger: u32) -> int
    decreases s.len(),
{
    if s.len() == 0 {
        0
    } else {
        let b = s.last();
        add_total(s.drop_last(), ledger) + if spec_is_active(b, ledger) && b.boost_type
            == BoostType::Additive {
            b.value as int
        } else {
            0
        }
    }
}

/// The boost total at `ledger`: the multiplicative product, scaled by the
/// additive sum (`m * (10000 + a) / 10000`); `None` when it exceeds `u32`.
pub open spec fn total_boost(s: Seq<Boost>, ledger: u32) -> Option<int> {
    match mult_total(s, ledger) {
        None => None,
        Some(m) => {
            let t = m * (10000 + add_total(s, ledger)) / 10000;
            if t > u32::MAX {
                None
            } else {
                Some(t)
            }
        },
    }
}

/// Builds an additive boost with priority 0.
pub fn additive(id: u128, value: u32, expires_at_ledger: u32) -> (b: Boost)
    ensures
        b == (Boost { id, boost_type: BoostType::Additive, value, priority: 0, expires_at_ledger }),
{
    Boost { id, boost_type: BoostType::Additive, value, priority: 0, expires_at_ledger }
}

/// Builds a multiplicative boost with priority 0.
pub fn multiplicative(id: u128, value: u32, expires_at_ledger: u32) -> (b: Boost)
    ensures
        b == (Boost { id, boost_type: BoostType::Multiplicative, value, priority: 0, expires_at_ledger }),
{
    Boost { id, boost_type: BoostType::Multiplicative, value, priority: 0, expires_at_ledger }
}

pub fn is_active(b: &Boost, ledger: u32) -> (r: bool)
    ensures
        r == spec_is_active(*b, ledger),
{
    b.expires_at_ledger == 0 || ledger < b.expires_at_ledger
}

proof fn lemma_mult_none_stays(s: Seq<Boost>, i: int, ledger: u32)
    requires
        0 <= i <= s.len(),
        mult_total(s.take(i), ledger) is None,
    ensures
        mult_total(s, ledger) is None,
    decreases s.len() - i,
{
    if i < s.len() {
        assert(s.take(i + 1).drop_last() =~= s.take(i));
        lemma_mult_none_stays(s, i + 1, ledger);
    } else {
        assert(s.take(i) =~= s);
    }
}

/// The boost total of a list of boosts at `ledger`.
pub fn compute_total_boost(boosts: &Vec<Boost>, ledger: u32) -> (r: Result<u32, BoostError>)
    ensures
        match total_boost(boosts@, ledger) {
            Some(t) => r == Ok::<u32, BoostError>(t as u32),
            None => r == Err::<u32, BoostError>(BoostError::Overflow),
        },
{
    let ghost s = boosts@;
    let n = boosts.len();
    let mut m: u64 = 10000;
    let mut a: u128 = 0;
    let mut i: usize = 0;
    while i < n
        invariant
            n == s.len(),
            s == boosts@,
            i <= n,
            mult_total(s.take(i as int), ledger) == Some(m as int),
            m <= u32::MAX,
            add_total(s.take(i as int), ledger) == a as int,
            a <= i * (u32::MAX as int),
        decreases n - i,
    {
        let b = boosts[i];
        proof {
            assert(s.take(i + 1).drop_last() =~= s.take(i as int));
            assert(s.take(i + 1).last() == b);
        }
        if is_active(&b, ledger) {
            match b.boost_type {
                BoostType::Multiplicative => {
                    proof {
                        assert((m as int) * (b.value as int) <= (u32::MAX as int) * (u32::MAX as int)) by (nonlinear_arith)
                            requires
                                m <= u32::MAX,
                                b.value <= u32::MAX,
                        ;
                    }
                    let prod: u128 = (m as u128) * (b.value as u128);
                    let m2: u128 = prod / 10000;
                    if m2 > u32::MAX as u128 {
                        proof {
                            lemma_mult_none_stays(s, i + 1, ledger);
                        }
                        return Err(BoostError::Overflow);
                    }
                    m = m2 as u64;
                },
                BoostType::Additive => {
                    a = a + b.value as u128;
                    proof {
                        assert(a <= (i + 1) * (u32::MAX as int)) by (nonlinear_arith)
                            requires
                                a <= i * (u32::MAX as int) + b.value,
                                b.value <= u32::MAX,
                        ;
                    }
                },
            }
        }
        proof {
            assert(a <= (i + 1) * (u32::MAX as int)) by (nonlinear_arith)
                requires
                    a <= i * (u32::MAX as int) || a <= (i + 1) * (u32::MAX as int),
            ;
        }
        i += 1;
    }
    proof {
        assert(s.take(n as int) =~= s);
    }
    if m == 0 {
        proof {
            assert(0int * (10000 + add_total(s, ledger)) / 10000 == 0) by (nonlinear_arith);
        }
        return Ok(0);
    }
    if a > u64::MAX as u128 {
        proof {
            let t = (m as int) * (10000 + a) / 10000;
            assert(t > u32::MAX) by (nonlinear_arith)
                requires
                    m >= 1,
                    a > u64::MAX,
                    t == (m as int) * (10000 + a) / 10000,
            ;
        }
        return Err(BoostError::Overflow);
    }
    proof {
        assert((m as int) * (10000 + a) <= (u32::MAX as int) * (10000 + u64::MAX as int)) by (nonlinear_arith)
            requires
                m <= u32::MAX,
                a <= u64::MAX,
        ;
    }
    let t: u128 = (m as u128) * (10000 + a) / 10000;
    if t > u32::MAX as u128 {
        return Err(BoostError::Overflow);
    }
    Ok(t as u32)
}

/// The boosts of a list that count at `ledger`, in order.
pub fn active_boosts(boosts: &Vec<Boost>, ledger: u32) -> (r: Vec<Boost>)
    ensures
        r@ == boosts@.filter(active_pred(ledger)),
{
    let ghost s = boosts@;
    let mut r: Vec<Boost> = Vec::new();
    let mut i: usize = 0;
    while i < boosts.len()
        invariant
            s == boosts@,
            i <= s.len(),
            r@ == s.take(i as int).filter(active_pred(ledger)),
        decreases s.len() - i,
    {
        let b = boosts[i];
        proof {
            assert(s.take(i + 1) =~= s.take(i as int).push(b));
            s.take(i as int).lemma_filter_push(b, active_pred(ledger));
        }
        if is_active(&b, ledger) {
            r.push(b);
        }
        i += 1;
    }
    proof {
        assert(s.take(s.len() as int) =~= s);
    }
    r
}

/// Dropping the boosts that no longer count does not change the boost
/// total at that ledger.
pub proof fn law_prune_keeps_total(s: Seq<Boost>, ledger: u32)
    ensures
        total_boost(s.filter(active_pred(ledger)), ledger) == total_boost(s, ledger),
        mult_total(s.filter(active_pred(ledger)), ledger) == mult_total(s, ledger),
        add_total(s.filter(active_pred(ledger)), ledger) == add_total(s, ledger),
    decreases s.len(),
{
    let f = active_pred(ledger);
    if s.len() > 0 {
        let t = s.drop_last();
        let x = s.last();
        assert(s =~= t.push(x));
        law_prune_keeps_total(t, ledger);
        t.lemma_filter_push(x, f);
        if f(x) {
            assert(t.filter(f).push(x).drop_last() =~= t.filter(f));
        }
    } else {
        assert(s.filter(f) =~= s) by {
            reveal(Seq::filter);
        }
    }
}

/// A boost that does not count at a ledger does not count at any later
/// one; a boost that counts at a ledger counted at every earlier one.
pub proof fn law_expiry_is_permanent(b: Boost, ledger: u32, later: u32)
    requires
        ledger <= later,
    ensures
        !spec_is_active(b, ledger) ==> !spec_is_active(b, later),
        spec_is_active(b, later) ==> spec_is_active(b, ledger),
{
}

/// A boost counts at a ledger exactly when it never expires or the ledger is
/// still below its expiry: one with `expires_at_ledger = N > 0` no longer
/// counts at any ledger from `N` on, whatever its id, type, value or priority.
pub proof fn law_activity_is_expiry(b: Boost, ledger: u32)
    ensures
        spec_is_active(b, ledger) <==> (b.expires_at_ledger == 0 || ledger < b.expires_at_ledger),
{
}

/// A boost whose expiry has been reached is not listed among the active
/// boosts and changes nothing in the boost total.
pub proof fn law_expired_boost_is_left_out(s: Seq<Boost>, b: Boost, ledger: u32)
    requires
        b.expires_at_ledger > 0,
        ledger >= b.expires_at_ledger,
    ensures
        s.push(b).filter(active_pred(ledger)) == s.filter(active_pred(ledger)),
        total_boost(s.push(b), ledger) == total_boost(s, ledger),
{
    s.lemma_filter_push(b, active_pred(ledger));
    assert(s.push(b).drop_last() =~= s);
}

/// A boost whose expiry has not been reached (or that never expires) is
/// listed among the active boosts, after those before it.
pub proof fn law_live_boost_is_listed(s: Seq<Boost>, b: Boost, ledger: u32)
    requires
        b.expires_at_ledger == 0 || ledger < b.expires_at_ledger,
    ensures
        s.push(b).filter(active_pred(ledger)) == s.filter(active_pred(ledger)).push(b),
{
    s.lemma_filter_push(b, active_pred(ledger));
}

proof fn lemma_additive_only_mult(s: Seq<Boost>, ledger: u32)
    requires
        forall|i: int| 0 <= i < s.len() ==> #[trigger] s[i].boost_type == BoostType::Additive,
    ensures
        mult_total(s, ledger) == Some(10000int),
    decreases s.len(),
{
    if s.len() > 0 {
        let t = s.drop_last();
        assert forall|i: int| 0 <= i < t.len() implies #[trigger] t[i].boost_type == BoostType::Additive by {
            assert(t[i] == s[i]);
        }
        lemma_additive_only_mult(t, ledger);
        assert(s.last() == s[s.len() - 1]);
    }
}

proof fn lemma_add_total_nonneg(s: Seq<Boost>, ledger: u32)
    ensures
        add_total(s, ledger) >= 0,
    decreases s.len(),
{
    if s.len() > 0 {
        lemma_add_total_nonneg(s.drop_last(), ledger);
    }
}

/// With no boost at all the total is the base, 10000.
pub proof fn law_no_boost_total(ledger: u32)
    ensures
        total_boost(Seq::<Boost>::empty(), ledger) == Some(10000int),
{
    assert(10000int * (10000 + 0) / 10000 == 10000) by (nonlinear_arith);
}

/// With additive boosts only, the total is 10000 plus the sum of the values
/// of the active ones, whenever that fits in a `u32`.
pub proof fn law_additive_total(s: Seq<Boost>, ledger: u32)
    requires
        forall|i: int| 0 <= i < s.len() ==> #[trigger] s[i].boost_type == BoostType::Additive,
    ensures
        total_boost(s, ledger) == (if 10000 + add_total(s, ledger) <= u32::MAX {
            Some(10000 + add_total(s, ledger))
        } else {
            None
        }),
{
    lemma_additive_only_mult(s, ledger);
    let a = add_total(s, ledger);
    assert(10000int * (10000 + a) / 10000 == 10000 + a) by (nonlinear_arith);
}

/// Adding an active additive boost to additive boosts raises the total by
/// exactly its value.
pub proof fn law_additive_boost_adds_its_value(s: Seq<Boost>, b: Boost, ledger: u32)
    requires
        forall|i: int| 0 <= i < s.len() ==> #[trigger] s[i].boost_type == BoostType::Additive,
        b.boost_type == BoostType::Additive,
        b.expires_at_ledger == 0 || ledger < b.expires_at_ledger,
        total_boost(s.push(b), ledger) is Some,
    ensures
        total_boost(s, ledger) is Some,
        total_boost(s.push(b), ledger) == Some(total_boost(s, ledger).unwrap() + b.value),
{
    let t = s.push(b);
    assert(t.drop_last() =~= s);
    assert forall|i: int| 0 <= i < t.len() implies #[trigger] t[i].boost_type == BoostType::Additive by {
        if i < s.len() {
            assert(t[i] == s[i]);
        }
    }
    lemma_add_total_nonneg(s, ledger);
    law_additive_total(s, ledger);
    law_additive_total(t, ledger);
}

/// An active multiplicative boost of value `v` on top of additive boosts
/// whose total is `t` makes the total `v * t / 10000`, when that fits.
pub proof fn law_multiplicative_boost_scales(s: Seq<Boost>, b: Boost, ledger: u32, t: int)
    requires
        forall|i: int| 0 <= i < s.len() ==> #[trigger] s[i].boost_type == BoostType::Additive,
        b.boost_type == BoostType::Multiplicative,
        b.expires_at_ledger == 0 || ledger < b.expires_at_ledger,
        total_boost(s, ledger) == Some(t),
        b.value * t / 10000 <= u32::MAX,
    ensures
        total_boost(s.push(b), ledger) == Some(b.value * t / 10000),
{
    let u = s.push(b);
    assert(u.drop_last() =~= s);
    lemma_additive_only_mult(s, ledger);
    law_additive_total(s, ledger);
    let a = add_total(s, ledger);
    let v = b.value as int;
    assert(10000 * v / 10000 == v) by (nonlinear_arith);
    assert(add_total(u, ledger) == a);
    assert(mult_total(u, ledger) == Some(v));
}

/// Each active boost, taken in order, acts on the running totals: a
/// multiplicative one of value `v` turns the product `m` into
/// `m * v / 10000` (rounded down) and leaves the additive sum alone; an
/// additive one adds `v` to the sum and leaves the product alone; a boost
/// past its expiry changes neither.
pub proof fn law_boost_step(s: Seq<Boost>, b: Boost, ledger: u32, m: int)
    requires
        mult_total(s, ledger) == Some(m),
    ensures
        (b.expires_at_ledger == 0 || ledger < b.expires_at_ledger) && b.boost_type
            == BoostType::Multiplicative && m * b.value / 10000 <= u32::MAX ==> mult_total(s.push(b), ledger)
            == Some(m * b.value / 10000) && add_total(s.push(b), ledger) == add_total(s, ledger),
        (b.expires_at_ledger == 0 || ledger < b.expires_at_ledger) && b.boost_type == BoostType::Additive
            ==> mult_total(s.push(b), ledger) == Some(m) && add_total(s.push(b), ledger) == add_total(
            s,
            ledger,
        ) + b.value,
        b.expires_at_ledger > 0 && ledger >= b.expires_at_ledger ==> mult_total(s.push(b), ledger)
            == Some(m) && add_total(s.push(b), ledger) == add_total(s, ledger),
{
    assert(s.push(b).drop_last() =~= s);
}

/// Everything the boost system stores, for keeping it between calls.
pub struct BoostParts {
    pub admin: Option<Address>,
    pub boosts: Vec<(Address, Vec<Boost>)>,
}

/// The boosts held by each player.
pub struct BoostSystem {
    admin: Option<Address>,
    boosts: AssocMap<Address, Vec<Boost>>,
}

impl BoostSystem {
    pub closed spec fn admin_spec(&self) -> Option<Address> {
        self.admin
    }

    /// The boosts a player holds, in the order they were added.
    pub closed spec fn boosts_of(&self, player: Address) -> Seq<Boost> {
        if self.boosts.view().contains_key(player) {
            self.boosts.view()[player]@
        } else {
            Seq::empty()
        }
    }

    pub closed spec fn wf(&self) -> bool {
        self.boosts.wf()
    }

    /// The stored `(player, boosts)` pairs.
    pub closed spec fn stored(&self) -> Seq<(Address, Vec<Boost>)> {
        self.boosts.entries()
    }

    /// Two boost systems that store the same pairs and admin hold the same
    /// boosts for every player.
    pub proof fn law_same_parts_same_state(&self, other: &Self, player: Address)
        requires
            self.wf(),
            other.wf(),
            self.stored() == other.stored(),
        ensures
            self.boosts_of(player) == other.boosts_of(player),
    {
        self.boosts.lemma_same_entries_same_view(&other.boosts);
    }

    /// Everything the system stores, for keeping it between calls.
    pub fn into_parts(self) -> (p: BoostParts)
        requires
            self.wf(),
        ensures
            p.admin == self.admin_spec(),
            p.boosts@ == self.stored(),
            unique_keys(p.boosts@),
    {
        BoostParts { admin: self.admin, boosts: self.boosts.into_pairs() }
    }

    /// Rebuilds the system from stored parts; `None` when a player is
    /// stored twice.
    pub fn from_parts(p: BoostParts) -> (r: Option<Self>)
        ensures
            r is Some <==> unique_keys(p.boosts@),
            r matches Some(s) ==> s.wf() && s.admin_spec() == p.admin && s.stored() == p.boosts@,
    {
        let BoostParts { admin, boosts } = p;
        match AssocMap::from_pairs(boosts) {
            Some(m) => Some(BoostSystem { admin, boosts: m }),
            None => None,
        }
    }

    pub fn new() -> (s: Self)
        ensures
            s.wf(),
            s.admin_spec() is None,
            forall|p: Address| s.boosts_of(p) == Seq::<Boost>::empty(),
    {
        BoostSystem { admin: None, boosts: AssocMap::new() }
    }

    /// Records the admin; only once.
    pub fn initialize(&mut self, admin: Address) -> (r: Result<(), BoostError>)
        requires
            old(self).wf(),
        ensures
            final(self).wf(),
            r is Ok <==> old(self).admin_spec() is None,
            r is Ok ==> final(self).admin_spec() == Some(admin),
            r is Err ==> r == Err::<(), BoostError>(BoostError::AlreadyInitialized),
            r is Err ==> *final(self) == *old(self),
            forall|p: Address| final(self).boosts_of(p) == old(self).boosts_of(p),
    {
        if self.admin.is_some() {
            return Err(BoostError::AlreadyInitialized);
        }
        self.admin = Some(admin);
        Ok(())
    }

    pub fn admin(&self) -> (a: Option<Address>)
        ensures
            a == self.admin_spec(),
    {
        self.admin
    }

    /// Gives `player` a boost; only the admin may, and a boost that would
    /// already have expired at `ledger` is refused.
    pub fn add_boost(&mut self, caller: Address, player: Address, boost: Boost, ledger: u32) -> (r: Result<
        (),
        BoostError,
    >)
        requires
            old(self).wf(),
        ensures
            final(self).wf(),
            final(self).admin_spec() == old(self).admin_spec(),
            r is Ok <==> old(self).admin_spec() == Some(caller) && spec_is_active(boost, ledger),
            r is Ok ==> final(self).boosts_of(player) == old(self).boosts_of(player).push(boost),
            r matches Err(e) ==> *final(self) == *old(self) && e == (if old(self).admin_spec() is None {
                BoostError::NotInitialized
            } else if old(self).admin_spec() != Some(caller) {
                BoostError::Unauthorized
            } else {
                BoostError::InvalidExpiry
            }),
            forall|p: Address| p != player ==> final(self).boosts_of(p) == old(self).boosts_of(p),
    {
        match self.admin {
            None => {
                return Err(BoostError::NotInitialized);
            },
            Some(a) => {
                if a != caller {
                    return Err(BoostError::Unauthorized);
                }
            },
        }
        if !is_active(&boost, ledger) {
            return Err(BoostError::InvalidExpiry);
        }
        let mut list = match self.boosts.remove(&player) {
            Some(v) => v,
            None => Vec::new(),
        };
        list.push(boost);
        self.boosts.insert(player, list);
        Ok(())
    }

    /// The boosts `player` holds.
    pub fn get_boosts(&self, player: Address) -> (r: Vec<Boost>)
        requires
            self.wf(),
        ensures
            r@ == self.boosts_of(player),
    {
        match self.boosts.get(&player) {
            Some(v) => {
                let mut r: Vec<Boost> = Vec::new();
                let mut i: usize = 0;
                while i < v.len()
                    invariant
                        i <= v@.len(),
                        r@ == v@.take(i as int),
                    decreases v@.len() - i,
                {
                    r.push(v[i]);
                    proof {
                        assert(v@.take(i + 1) =~= v@.take(i as int).push(v@[i as int]));
                    }
                    i += 1;
                }
                proof {
                    assert(v@.take(v@.len() as int) =~= v@);
                }
                r
            },
            None => Vec::new(),
        }
    }

    /// The boosts of `player` that count at `ledger`.
    pub fn get_active_boosts(&self, player: Address, ledger: u32) -> (r: Vec<Boost>)
        requires
            self.wf(),
        ensures
            r@ == self.boosts_of(player).filter(active_pred(ledger)),
    {
        match self.boosts.get(&player) {
            Some(v) => active_boosts(v, ledger),
            None => {
                proof {
                    assert(Seq::<Boost>::empty().filter(active_pred(ledger)) =~= Seq::<Boost>::empty()) by {
                        reveal(Seq::filter);
                    }
                }
                Vec::new()
            },
        }
    }

    /// The boost total of `player` at `ledger`: 10000 with no active boost.
    pub fn calculate_total_boost(&self, player: Address, ledger: u32) -> (r: Result<u32, BoostError>)
        requires
            self.wf(),
        ensures
            match total_boost(self.boosts_of(player), ledger) {
                Some(t) => r == Ok::<u32, BoostError>(t as u32),
                None => r == Err::<u32, BoostError>(BoostError::Overflow),
            },
    {
        match self.boosts.get(&player) {
            Some(v) => compute_total_boost(v, ledger),
            None => {
                proof {
                    assert(10000int * (10000 + 0) / 10000 == 10000) by (nonlinear_arith);
                }
                Ok(BASE_BOOST)
            },
        }
    }

    /// Drops the boosts of `player` that no longer count at `ledger` and
    /// returns how many were dropped.
    pub fn prune_expired_boosts(&mut self, player: Address, ledger: u32) -> (n: usize)
        requires
            old(self).wf(),
        ensures
            final(self).wf(),
            final(self).admin_spec() == old(self).admin_spec(),
            final(self).boosts_of(player) == old(self).boosts_of(player).filter(active_pred(ledger)),
            n == old(self).boosts_of(player).len() - final(self).boosts_of(player).len(),
            forall|p: Address| p != player ==> final(self).boosts_of(p) == old(self).boosts_of(p),
    {
        match self.boosts.remove(&player) {
            Some(v) => {
                let kept = active_boosts(&v, ledger);
                proof {
                    v@.lemma_filter_len(active_pred(ledger));
                }
                let removed = v.len() - kept.len();
                self.boosts.insert(player, kept);
                removed
            },
            None => {
                proof {
                    assert(Seq::<Boost>::empty().filter(active_pred(ledger)) =~= Seq::<Boost>::empty()) by {
                        reveal(Seq::filter);
                    }
                }
                0
            },
        }
    }
}

} // verus!
