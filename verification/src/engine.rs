//! Deposits and withdrawals: the balances together with the total value
//! locked, which every operation keeps equal to the sum of the balances. An
//! operation that fails changes nothing.

use crate::account::AccountId;
use crate::ledger::{
    as_map, balance_or_zero, distinct_accounts, lemma_total_bounds, lemma_total_insert,
    lemma_total_remove, total, Entry, Ledger,
};
use vstd::prelude::*;

verus! {

/// The balances after `amount` has been credited to `a`.
pub open spec fn deposited(
    m: Map<AccountId, u128>,
    a: AccountId,
    amount: u128,
) -> Map<AccountId, u128> {
    m.insert(a, (balance_or_zero(m, a) + amount) as u128)
}

/// Whether crediting `amount` to `a` would carry the balance of `a`, or the
/// total value locked, past the largest value that can be held.
pub open spec fn deposit_overflows(
    m: Map<AccountId, u128>,
    tvl: u128,
    a: AccountId,
    amount: u128,
) -> bool {
    balance_or_zero(m, a) + amount > u128::MAX || tvl + amount > u128::MAX
}

/// What leaves an account that holds `balance` when `amount` is asked for:
/// the amount, or all of the balance where the amount reaches it.
pub open spec fn paid_out(balance: u128, amount: u128) -> u128 {
    if amount >= balance {
        balance
    } else {
        amount
    }
}

/// The balances after `amount` has been asked from `a`: the record of `a` is
/// gone where the amount reaches its balance, and is lowered by the amount
/// otherwise.
pub open spec fn withdrawn(
    m: Map<AccountId, u128>,
    a: AccountId,
    amount: u128,
) -> Map<AccountId, u128> {
    if amount >= m[a] {
        m.remove(a)
    } else {
        m.insert(a, (m[a] - amount) as u128)
    }
}

/// Where the total value locked is the sum of the balances, a deposit
/// overflows exactly when the total would: no balance is more than the total.
pub proof fn lemma_overflow_is_of_total(
    m: Map<AccountId, u128>,
    tvl: u128,
    a: AccountId,
    amount: u128,
)
    requires
        m.dom().finite(),
        total(m) == tvl,
    ensures
        deposit_overflows(m, tvl, a, amount) <==> tvl + amount > u128::MAX,
{
    lemma_total_bounds(m, a);
}

/// A deposit that fits raises the sum of the balances by its amount.
pub proof fn lemma_deposited_total(m: Map<AccountId, u128>, a: AccountId, amount: u128)
    requires
        m.dom().finite(),
        balance_or_zero(m, a) + amount <= u128::MAX,
    ensures
        deposited(m, a, amount).dom().finite(),
        total(deposited(m, a, amount)) == total(m) + amount,
{
    lemma_total_insert(m, a, (balance_or_zero(m, a) + amount) as u128);
}

/// A withdrawal lowers the sum of the balances by what it pays out.
pub proof fn lemma_withdrawn_total(m: Map<AccountId, u128>, a: AccountId, amount: u128)
    requires
        m.dom().finite(),
        m.contains_key(a),
    ensures
        withdrawn(m, a, amount).dom().finite(),
        total(withdrawn(m, a, amount)) == total(m) - paid_out(m[a], amount),
{
    if amount >= m[a] {
        lemma_total_remove(m, a);
    } else {
        lemma_total_insert(m, a, (m[a] - amount) as u128);
    }
}

/// Depositing `first` and then `second` comes to what depositing both at
/// once comes to, where that does not overflow: neither step overflows, and
/// the balances at the end are the same.
pub proof fn lemma_deposits_add_up(
    m: Map<AccountId, u128>,
    tvl: u128,
    a: AccountId,
    first: u128,
    second: u128,
)
    requires
        first + second <= u128::MAX,
        !deposit_overflows(m, tvl, a, (first + second) as u128),
    ensures
        !deposit_overflows(m, tvl, a, first),
        !deposit_overflows(deposited(m, a, first), (tvl + first) as u128, a, second),
        deposited(deposited(m, a, first), a, second) == deposited(m, a, (first + second) as u128),
        balance_or_zero(deposited(deposited(m, a, first), a, second), a) == balance_or_zero(m, a)
            + first + second,
{
    let both: u128 = (first + second) as u128;
    assert(deposited(deposited(m, a, first), a, second) =~= deposited(m, a, both));
}

/// A withdrawal that asks for the balance or more leaves no record and
/// nothing of the balance; one that asks for less leaves the balance lowered
/// by what was asked. No other account is touched.
pub proof fn lemma_withdraw_boundary(m: Map<AccountId, u128>, a: AccountId, amount: u128)
    requires
        m.contains_key(a),
    ensures
        amount >= m[a] ==> !withdrawn(m, a, amount).contains_key(a) && paid_out(m[a], amount)
            == m[a],
        amount < m[a] ==> withdrawn(m, a, amount).contains_key(a) && withdrawn(m, a, amount)[a]
            == m[a] - amount && paid_out(m[a], amount) == amount,
        balance_or_zero(withdrawn(m, a, amount), a) == m[a] - paid_out(m[a], amount),
        forall|b: AccountId|
            b != a ==> (#[trigger] withdrawn(m, a, amount).contains_key(b) <==> m.contains_key(b)),
        forall|b: AccountId|
            b != a && m.contains_key(b) ==> #[trigger] withdrawn(m, a, amount)[b] == m[b],
{
}

/// The balances of all accounts together with the total value locked, which
/// is at all times the sum of those balances.
pub struct LedgerState {
    balances: Ledger,
    tvl: u128,
}

impl LedgerState {
    #[verifier::type_invariant]
    spec fn balanced(self) -> bool {
        total(self.balances@) == self.tvl
    }

    /// The balance recorded for each account that has one.
    pub closed spec fn balances(&self) -> Map<AccountId, u128> {
        self.balances@
    }

    /// The total value locked.
    pub closed spec fn spec_tvl(&self) -> u128 {
        self.tvl
    }

    /// Balances are recorded for finitely many accounts.
    pub proof fn lemma_finite(self)
        ensures
            self.balances().dom().finite(),
    {
        self.balances.lemma_finite();
    }

    /// A state with no balance recorded and nothing locked.
    pub fn new() -> (s: Self)
        ensures
            s.balances() == Map::<AccountId, u128>::empty(),
            s.tvl() == 0,
            total(s.balances()) == s.tvl(),
    {
        let balances = Ledger::new();
        assert(total(balances@) == 0) by {
            balances.lemma_finite();
        }
        LedgerState { balances, tvl: 0 }
    }

    /// The state that holds the balances of `entries` and `tvl` as the
    /// total value locked. There is none, and the result is `None`, where
    /// two of the entries are for the same account or `tvl` is not the sum
    /// of their balances.
    pub fn from_parts(entries: Vec<Entry>, tvl: u128) -> (r: Option<Self>)
        ensures
            r is Some <==> distinct_accounts(entries@) && total(as_map(entries@)) == tvl,
            r matches Some(s) ==> {
                &&& s.balances() == as_map(entries@)
                &&& s.tvl() == tvl
                &&& total(s.balances()) == s.tvl()
            },
    {
        let balances = match Ledger::from_entries(entries) {
            Some(l) => l,
            None => { return None; },
        };
        match balances.sum() {
            Some(t) => {
                if t == tvl {
                    Some(LedgerState { balances, tvl })
                } else {
                    None
                }
            },
            None => None,
        }
    }

    /// The records of the balances, one for each account that has one.
    pub fn entries(&self) -> (v: &Vec<Entry>)
        ensures
            distinct_accounts(v@),
            as_map(v@) == self.balances(),
    {
        self.balances.entries()
    }

    /// Takes the balances and the total out, and leaves a state with no
    /// balance recorded and nothing locked.
    fn take(&mut self) -> (parts: (Ledger, u128))
        ensures
            parts.0@ == old(self).balances(),
            parts.1 == old(self).tvl(),
            total(parts.0@) == parts.1,
            final(self).balances() == Map::<AccountId, u128>::empty(),
            final(self).tvl() == 0,
    {
        proof {
            use_type_invariant(&*self);
        }
        let mut taken = LedgerState::new();
        std::mem::swap(self, &mut taken);
        let LedgerState { balances, tvl } = taken;
        (balances, tvl)
    }

    /// The total value locked, which is the sum of all recorded balances.
    #[verifier::when_used_as_spec(spec_tvl)]
    pub fn tvl(&self) -> (t: u128)
        ensures
            t == self.tvl(),
            t == total(self.balances()),
    {
        proof {
            use_type_invariant(self);
        }
        self.tvl
    }

    /// The balance recorded for `account`, if one is.
    pub fn get_balance(&self, account: AccountId) -> (r: Option<u128>)
        ensures
            r == (if self.balances().contains_key(account) {
                Some(self.balances()[account])
            } else {
                None
            }),
    {
        self.balances.get(account)
    }

    /// Credits `amount` to `account` and returns its new balance, or changes
    /// nothing and returns `None` where that would overflow.
    pub fn deposit(&mut self, account: AccountId, amount: u128) -> (r: Option<u128>)
        ensures
            r is None <==> deposit_overflows(
                old(self).balances(),
                old(self).tvl(),
                account,
                amount,
            ),
            r is None ==> {
                &&& final(self).balances() == old(self).balances()
                &&& final(self).tvl() == old(self).tvl()
            },
            r matches Some(new_balance) ==> {
                &&& new_balance == balance_or_zero(old(self).balances(), account) + amount
                &&& final(self).balances() == deposited(old(self).balances(), account, amount)
                &&& final(self).tvl() == old(self).tvl() + amount
            },
            total(final(self).balances()) == final(self).tvl(),
    {
        proof {
            use_type_invariant(&*self);
            self.balances.lemma_finite();
        }
        let balance: u128 = match self.balances.get(account) {
            Some(b) => b,
            None => 0,
        };
        let new_balance: u128 = match balance.checked_add(amount) {
            Some(n) => n,
            None => { return None; },
        };
        let new_tvl: u128 = match self.tvl.checked_add(amount) {
            Some(n) => n,
            None => { return None; },
        };
        let (mut balances, tvl) = self.take();
        proof {
            lemma_total_insert(balances@, account, new_balance);
        }
        balances.set(account, new_balance);
        *self = LedgerState { balances, tvl: new_tvl };
        Some(new_balance)
    }

    /// Takes the record of `account` out and returns the balance it held, or
    /// changes nothing and returns `None` where there is no record.
    pub fn withdraw_all(&mut self, account: AccountId) -> (r: Option<u128>)
        ensures
            r == (if old(self).balances().contains_key(account) {
                Some(old(self).balances()[account])
            } else {
                None
            }),
            final(self).balances() == old(self).balances().remove(account),
            final(self).tvl() == old(self).tvl() - balance_or_zero(old(self).balances(), account),
            total(final(self).balances()) == final(self).tvl(),
    {
        proof {
            use_type_invariant(&*self);
            self.balances.lemma_finite();
        }
        let balance: u128 = match self.balances.get(account) {
            Some(b) => b,
            None => {
                assert(self.balances@.remove(account) =~= self.balances@);
                return None;
            },
        };
        let (mut balances, tvl) = self.take();
        proof {
            lemma_total_remove(balances@, account);
        }
        balances.remove(account);
        *self = LedgerState { balances, tvl: tvl - balance };
        Some(balance)
    }

    /// Pays `amount` out of the balance of `account`, or all of the balance
    /// where the amount reaches it, and returns what was paid and what is
    /// left. Changes nothing and returns `None` where `account` has no record.
    pub fn withdraw(&mut self, account: AccountId, amount: u128) -> (r: Option<(u128, u128)>)
        ensures
            r is None <==> !old(self).balances().contains_key(account),
            r is None ==> {
                &&& final(self).balances() == old(self).balances()
                &&& final(self).tvl() == old(self).tvl()
            },
            r matches Some((paid, left)) ==> {
                &&& paid == paid_out(old(self).balances()[account], amount)
                &&& left == old(self).balances()[account] - paid
                &&& left == balance_or_zero(final(self).balances(), account)
                &&& final(self).balances() == withdrawn(old(self).balances(), account, amount)
                &&& final(self).tvl() == old(self).tvl() - paid
            },
            total(final(self).balances()) == final(self).tvl(),
    {
        proof {
            use_type_invariant(&*self);
            self.balances.lemma_finite();
        }
        let balance: u128 = match self.balances.get(account) {
            Some(b) => b,
            None => { return None; },
        };
        let (mut balances, tvl) = self.take();
        if amount >= balance {
            proof {
                lemma_total_remove(balances@, account);
            }
            balances.remove(account);
            *self = LedgerState { balances, tvl: tvl - balance };
            Some((balance, 0))
        } else {
            let left: u128 = balance - amount;
            proof {
                lemma_total_insert(balances@, account, left);
            }
            balances.set(account, left);
            *self = LedgerState { balances, tvl: tvl - amount };
            Some((amount, left))
        }
    }
}

} // verus!
