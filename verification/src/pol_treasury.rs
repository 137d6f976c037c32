//! The treasury with an owner: every account deposits to and withdraws from
//! its own balance, and the owner alone may withdraw a whole balance at once.
//!
//! An operation returns the notice to emit. The notice of a withdrawal
//! names the amount that has left the balance, which is what is to be sent
//! to the account: by then the balance has been lowered.

use crate::account::AccountId;
use crate::engine::{deposit_overflows, deposited, paid_out, withdrawn, LedgerState};
use crate::ledger::{as_map, balance_or_zero, distinct_accounts, total, Entry};
use vstd::prelude::*;

verus! {

/// Notice that `from` has deposited and now holds `new_balance`.
#[derive(Clone, Copy, Debug, PartialEq, Eq)]
pub struct SuccessfulDeposit {
    pub from: Option<AccountId>,
    pub new_balance: Option<u128>,
}

/// Notice that `amount` has left the balance of `from` and is owed to it.
#[derive(Clone, Copy, Debug, PartialEq, Eq)]
pub struct SuccessfulWithdrawl {
    pub from: Option<AccountId>,
    pub amount: Option<u128>,
}

/// Why an operation on the treasury was refused.
#[derive(Clone, Copy, Debug, PartialEq, Eq, Structural)]
pub enum Error {
    /// A withdrawal exceeds the recorded balance. No operation returns it:
    /// a withdrawal that asks for too much pays the whole balance instead.
    NotEnoughFunds,
    /// Someone other than the owner asked for the whole balance.
    NoWithdrawlPermission,
    /// The caller has no balance to withdraw.
    NoFunds,
    /// A balance or the total value locked would pass the largest value
    /// that can be held.
    ArithmeticOverflow,
    /// The total value locked would fall below zero. No operation returns
    /// it: what leaves a balance is never more than the total.
    ArithmeticUnderflow,
}

/// A treasury with an owner, fixed when it is made: only the owner may
/// withdraw a whole balance at once, and then its own.
pub struct PolTreasury {
    owner: AccountId,
    state: LedgerState,
}

impl PolTreasury {
    /// The owner.
    pub closed spec fn spec_owner(&self) -> AccountId {
        self.owner
    }

    /// The balance recorded for each account that has one.
    pub closed spec fn balances(&self) -> Map<AccountId, u128> {
        self.state.balances()
    }

    /// The total value locked.
    pub closed spec fn spec_tvl(&self) -> u128 {
        self.state.tvl()
    }

    /// Balances are recorded for finitely many accounts.
    pub proof fn lemma_finite(self)
        ensures
            self.balances().dom().finite(),
    {
        self.state.lemma_finite();
    }

    /// A treasury owned by `owner`, with no balance recorded and nothing
    /// locked.
    pub fn new(owner: AccountId) -> (s: Self)
        ensures
            s.owner() == owner,
            s.balances() == Map::<AccountId, u128>::empty(),
            s.tvl() == 0,
            total(s.balances()) == s.tvl(),
    {
        PolTreasury { owner, state: LedgerState::new() }
    }

    /// The owner.
    #[verifier::when_used_as_spec(spec_owner)]
    pub fn owner(&self) -> (o: AccountId)
        ensures
            o == self.owner(),
    {
        self.owner
    }

    /// The treasury owned by `owner` that holds the balances of `entries`
    /// and `tvl` as the total value locked. There is none, and the result is
    /// `None`, where two of the entries are for the same account or `tvl` is
    /// not the sum of their balances.
    pub fn from_parts(owner: AccountId, entries: Vec<Entry>, tvl: u128) -> (r: Option<Self>)
        ensures
            r is Some <==> distinct_accounts(entries@) && total(as_map(entries@)) == tvl,
            r matches Some(s) ==> {
                &&& s.owner() == owner
                &&& s.balances() == as_map(entries@)
                &&& s.tvl() == tvl
                &&& total(s.balances()) == s.tvl()
            },
    {
        match LedgerState::from_parts(entries, tvl) {
            Some(state) => Some(PolTreasury { owner, state }),
            None => None,
        }
    }

    /// The records of the balances, one for each account that has one.
    pub fn entries(&self) -> (v: &Vec<Entry>)
        ensures
            distinct_accounts(v@),
            as_map(v@) == self.balances(),
    {
        self.state.entries()
    }

    /// The total value locked, which is the sum of all recorded balances.
    #[verifier::when_used_as_spec(spec_tvl)]
    pub fn tvl(&self) -> (t: u128)
        ensures
            t == self.tvl(),
            t == total(self.balances()),
    {
        self.state.tvl()
    }

    /// The balance recorded for `caller`, if one is.
    pub fn get_balance(&self, caller: AccountId) -> (r: Option<u128>)
        ensures
            r == (if self.balances().contains_key(caller) {
                Some(self.balances()[caller])
            } else {
                None
            }),
    {
        self.state.get_balance(caller)
    }

    /// Credits `amount`, which the treasury has received from `caller`, to
    /// the balance of `caller`.
    ///
    /// Fails with `ArithmeticOverflow`, and changes nothing, where the
    /// balance or the total value locked would overflow.
    pub fn deposit(
        &mut self,
        caller: AccountId,
        amount: u128,
    ) -> (r: Result<SuccessfulDeposit, Error>)
        ensures
            match r {
                Ok(event) => {
                    &&& !deposit_overflows(old(self).balances(), old(self).tvl(), caller, amount)
                    &&& final(self).balances() == deposited(old(self).balances(), caller, amount)
                    &&& final(self).tvl() == old(self).tvl() + amount
                    &&& event.from == Some(caller)
                    &&& event.new_balance == Some(final(self).balances()[caller])
                },
                Err(e) => {
                    &&& e == Error::ArithmeticOverflow
                    &&& deposit_overflows(old(self).balances(), old(self).tvl(), caller, amount)
                    &&& final(self).balances() == old(self).balances()
                    &&& final(self).tvl() == old(self).tvl()
                },
            },
            final(self).owner() == old(self).owner(),
            total(final(self).balances()) == final(self).tvl(),
    {
        match self.state.deposit(caller, amount) {
            Some(new_balance) => Ok(
                SuccessfulDeposit { from: Some(caller), new_balance: Some(new_balance) },
            ),
            None => Err(Error::ArithmeticOverflow),
        }
    }

    /// Withdraws the whole balance of the owner: its record is removed, and
    /// the notice names what the treasury now owes to the owner.
    ///
    /// Fails, and changes nothing, with `NoWithdrawlPermission` where
    /// `caller` is not the owner, whatever the balances are, and with
    /// `NoFunds` where the owner has no balance recorded.
    pub fn withdraw_all(&mut self, caller: AccountId) -> (r: Result<SuccessfulWithdrawl, Error>)
        ensures
            match r {
                Ok(event) => {
                    &&& caller == old(self).owner()
                    &&& old(self).balances().contains_key(caller)
                    &&& final(self).balances() == old(self).balances().remove(caller)
                    &&& final(self).tvl() == old(self).tvl() - old(self).balances()[caller]
                    &&& event.from == Some(caller)
                    &&& event.amount == Some(old(self).balances()[caller])
                },
                Err(e) => {
                    &&& e == (if caller != old(self).owner() {
                        Error::NoWithdrawlPermission
                    } else {
                        Error::NoFunds
                    })
                    &&& caller != old(self).owner() || !old(self).balances().contains_key(caller)
                    &&& final(self).balances() == old(self).balances()
                    &&& final(self).tvl() == old(self).tvl()
                },
            },
            final(self).owner() == old(self).owner(),
            total(final(self).balances()) == final(self).tvl(),
    {
        if caller != self.owner {
            // Reading the total brings along that it is the sum of the balances.
            let _ = self.state.tvl();
            return Err(Error::NoWithdrawlPermission);
        }
        match self.state.withdraw_all(caller) {
            Some(balance) => Ok(
                SuccessfulWithdrawl { from: Some(caller), amount: Some(balance) },
            ),
            None => Err(Error::NoFunds),
        }
    }

    /// Withdraws `amount` from the balance of `caller`, or the whole balance
    /// where `amount` reaches it, and returns what is left of the balance
    /// with the notice, which names what the treasury now owes to `caller`.
    /// A balance that is withdrawn whole has its record removed.
    ///
    /// Fails with `NoFunds`, and changes nothing, where `caller` has no
    /// balance.
    pub fn withdraw(
        &mut self,
        caller: AccountId,
        amount: u128,
    ) -> (r: Result<(u128, SuccessfulWithdrawl), Error>)
        ensures
            match r {
                Ok((left, event)) => {
                    &&& old(self).balances().contains_key(caller)
                    &&& left == old(self).balances()[caller] - paid_out(
                        old(self).balances()[caller],
                        amount,
                    )
                    &&& left == balance_or_zero(final(self).balances(), caller)
                    &&& amount >= old(self).balances()[caller] ==> {
                        &&& left == 0
                        &&& !final(self).balances().contains_key(caller)
                    }
                    &&& amount < old(self).balances()[caller] ==> {
                        &&& left == old(self).balances()[caller] - amount
                        &&& final(self).balances()[caller] == left
                    }
                    &&& final(self).balances() == withdrawn(old(self).balances(), caller, amount)
                    &&& final(self).tvl() == old(self).tvl() - paid_out(
                        old(self).balances()[caller],
                        amount,
                    )
                    &&& event.from == Some(caller)
                    &&& event.amount == Some(paid_out(old(self).balances()[caller], amount))
                },
                Err(e) => {
                    &&& e == Error::NoFunds
                    &&& !old(self).balances().contains_key(caller)
                    &&& final(self).balances() == old(self).balances()
                    &&& final(self).tvl() == old(self).tvl()
                },
            },
            final(self).owner() == old(self).owner(),
            total(final(self).balances()) == final(self).tvl(),
    {
        match self.state.withdraw(caller, amount) {
            Some((paid, left)) => Ok(
                (left, SuccessfulWithdrawl { from: Some(caller), amount: Some(paid) }),
            ),
            None => Err(Error::NoFunds),
        }
    }
}

} // verus!
