//! The store of balances: at most one balance for each account, read as a
//! map from account to balance, and the sum of all the balances it holds.

use crate::account::AccountId;
use vstd::prelude::*;

verus! {

/// The sum of all the balances that `m` records.
pub open spec fn total(m: Map<AccountId, u128>) -> nat
    decreases m.dom().len(),
    when m.dom().finite()
{
    if m.dom().len() == 0 {
        0
    } else {
        let a = m.dom().choose();
        m[a] as nat + total(m.remove(a))
    }
}

/// The balance that `m` records for `a`, zero where it records none.
pub open spec fn balance_or_zero(m: Map<AccountId, u128>, a: AccountId) -> u128 {
    if m.contains_key(a) {
        m[a]
    } else {
        0
    }
}

/// The sum does not depend on which account is taken out first.
pub proof fn lemma_total_split(m: Map<AccountId, u128>, a: AccountId)
    requires
        m.dom().finite(),
        m.contains_key(a),
    ensures
        total(m) == m[a] + total(m.remove(a)),
    decreases m.dom().len(),
{
    let c = m.dom().choose();
    if c != a {
        lemma_total_split(m.remove(c), a);
        lemma_total_split(m.remove(a), c);
        assert(m.remove(c).remove(a) =~= m.remove(a).remove(c));
    }
}

/// Recording `v` for `a` replaces whatever `a` contributed to the sum by `v`.
pub proof fn lemma_total_insert(m: Map<AccountId, u128>, a: AccountId, v: u128)
    requires
        m.dom().finite(),
    ensures
        total(m.insert(a, v)) == total(m) - balance_or_zero(m, a) + v,
{
    let n = m.insert(a, v);
    lemma_total_split(n, a);
    if m.contains_key(a) {
        lemma_total_split(m, a);
        assert(n.remove(a) =~= m.remove(a));
    } else {
        assert(n.remove(a) =~= m);
    }
}

/// Forgetting `a` takes what `a` contributed out of the sum.
pub proof fn lemma_total_remove(m: Map<AccountId, u128>, a: AccountId)
    requires
        m.dom().finite(),
    ensures
        total(m.remove(a)) == total(m) - balance_or_zero(m, a),
{
    if m.contains_key(a) {
        lemma_total_split(m, a);
    } else {
        assert(m.remove(a) =~= m);
    }
}

/// Forgetting an account and holding a balance of zero for it come to the
/// same sum, and to the same balance for every account once a missing
/// balance is read as zero.
pub proof fn lemma_remove_is_set_zero(m: Map<AccountId, u128>, a: AccountId)
    requires
        m.dom().finite(),
    ensures
        total(m.remove(a)) == total(m.insert(a, 0)),
        forall|b: AccountId|
            #[trigger] balance_or_zero(m.remove(a), b) == balance_or_zero(m.insert(a, 0), b),
{
    lemma_total_remove(m, a);
    lemma_total_insert(m, a, 0);
}

/// No balance is more than the sum of all.
pub proof fn lemma_total_bounds(m: Map<AccountId, u128>, a: AccountId)
    requires
        m.dom().finite(),
    ensures
        balance_or_zero(m, a) <= total(m),
{
    if m.contains_key(a) {
        lemma_total_split(m, a);
    }
}

/// One record of the store: an account and the balance held for it.
#[derive(Clone, Copy, Debug, PartialEq, Eq)]
pub struct Entry {
    pub account: AccountId,
    pub balance: u128,
}

/// Whether some record of `s` is for `a`.
pub open spec fn records(s: Seq<Entry>, a: AccountId) -> bool {
    exists|i: int| 0 <= i < s.len() && s[i].account == a
}

/// The place of a record for `a` in `s`, where there is one.
pub open spec fn place_of(s: Seq<Entry>, a: AccountId) -> int {
    choose|i: int| 0 <= i < s.len() && s[i].account == a
}

/// No two records of `s` are for the same account.
pub open spec fn distinct_accounts(s: Seq<Entry>) -> bool {
    forall|i: int, j: int| 0 <= i < j < s.len() ==> s[i].account != s[j].account
}

/// The mapping from account to balance that the records of `s` make up.
pub open spec fn as_map(s: Seq<Entry>) -> Map<AccountId, u128> {
    Map::new(|a: AccountId| records(s, a), |a: AccountId| s[place_of(s, a)].balance)
}

/// Finitely many records name finitely many accounts.
pub proof fn lemma_as_map_finite(s: Seq<Entry>)
    ensures
        as_map(s).dom().finite(),
    decreases s.len(),
{
    if s.len() == 0 {
        assert(as_map(s).dom() =~= Set::<AccountId>::empty());
    } else {
        let init = s.drop_last();
        lemma_as_map_finite(init);
        assert forall|a: AccountId| records(s, a) implies records(init, a) || a
            == s.last().account by {
            let i = place_of(s, a);
            if i < init.len() {
                assert(init[i].account == a);
            }
        }
        assert forall|a: AccountId| records(init, a) implies records(s, a) by {
            let i = place_of(init, a);
            assert(s[i].account == a);
        }
        assert(s[s.len() - 1].account == s.last().account);
        assert(as_map(s).dom() =~= as_map(init).dom().insert(s.last().account));
    }
}

/// Where the accounts are distinct, each record's balance is the one the map holds.
pub proof fn lemma_as_map_at(s: Seq<Entry>, i: int)
    requires
        distinct_accounts(s),
        0 <= i < s.len(),
    ensures
        as_map(s).contains_key(s[i].account),
        as_map(s)[s[i].account] == s[i].balance,
{
    let a = s[i].account;
    let j = place_of(s, a);
    assert(0 <= j < s.len() && s[j].account == a);
    assert(i == j);
}

/// The store of balances: it holds at most one balance for each account.
pub struct Ledger {
    entries: Vec<Entry>,
}

impl View for Ledger {
    type V = Map<AccountId, u128>;

    closed spec fn view(&self) -> Map<AccountId, u128> {
        as_map(self.entries@)
    }
}

impl Ledger {
    #[verifier::type_invariant]
    spec fn well_formed(self) -> bool {
        distinct_accounts(self.entries@)
    }

    /// A store holds balances for finitely many accounts.
    pub proof fn lemma_finite(self)
        ensures
            self@.dom().finite(),
    {
        lemma_as_map_finite(self.entries@);
    }

    /// A store that holds no balance at all.
    pub fn new() -> (s: Self)
        ensures
            s@ == Map::<AccountId, u128>::empty(),
    {
        let s = Ledger { entries: Vec::new() };
        assert(s@ =~= Map::<AccountId, u128>::empty());
        s
    }

    fn find(&self, account: AccountId) -> (r: Option<usize>)
        ensures
            match r {
                Some(i) => i < self.entries.len() && self.entries[i as int].account == account,
                None => !records(self.entries@, account),
            },
    {
        let mut i: usize = 0;
        while i < self.entries.len()
            invariant
                i <= self.entries.len(),
                forall|j: int| 0 <= j < i ==> self.entries[j].account != account,
            decreases self.entries.len() - i,
        {
            if self.entries[i].account == account {
                return Some(i);
            }
            i += 1;
        }
        None
    }

    /// The balance held for `account`, if one is held.
    pub fn get(&self, account: AccountId) -> (r: Option<u128>)
        ensures
            r == (if self@.contains_key(account) {
                Some(self@[account])
            } else {
                None
            }),
    {
        proof {
            use_type_invariant(self);
        }
        match self.find(account) {
            Some(i) => {
                proof {
                    lemma_as_map_at(self.entries@, i as int);
                }
                Some(self.entries[i].balance)
            },
            None => None,
        }
    }

    /// Holds `balance` for `account` from now on, in place of any balance held before.
    pub fn set(&mut self, account: AccountId, balance: u128)
        ensures
            final(self)@ == old(self)@.insert(account, balance),
    {
        proof {
            use_type_invariant(&*self);
        }
        let found = self.find(account);
        let mut entries: Vec<Entry> = Vec::new();
        std::mem::swap(&mut entries, &mut self.entries);
        let ghost before = entries@;
        match found {
            Some(i) => {
                entries.set(i, Entry { account, balance });
            },
            None => {
                entries.push(Entry { account, balance });
            },
        }
        proof {
            lemma_as_map_set(before, entries@, account, balance);
        }
        self.entries = entries;
    }

    /// Holds no balance for `account` from now on.
    pub fn remove(&mut self, account: AccountId)
        ensures
            final(self)@ == old(self)@.remove(account),
    {
        proof {
            use_type_invariant(&*self);
        }
        let found = self.find(account);
        let mut entries: Vec<Entry> = Vec::new();
        std::mem::swap(&mut entries, &mut self.entries);
        let ghost before = entries@;
        match found {
            Some(i) => {
                entries.remove(i);
            },
            None => {},
        }
        proof {
            lemma_as_map_remove(before, entries@, account);
        }
        self.entries = entries;
    }

    /// The records of the store, one for each account that has a balance.
    pub fn entries(&self) -> (v: &Vec<Entry>)
        ensures
            distinct_accounts(v@),
            as_map(v@) == self@,
    {
        proof {
            use_type_invariant(self);
        }
        &self.entries
    }

    /// The store that `entries` make up, where no two of them are for the
    /// same account; `None` where two are.
    pub fn from_entries(entries: Vec<Entry>) -> (r: Option<Ledger>)
        ensures
            r is Some <==> distinct_accounts(entries@),
            r matches Some(l) ==> l@ == as_map(entries@),
    {
        if all_distinct(&entries) {
            Some(Ledger { entries })
        } else {
            None
        }
    }

    /// The sum of all balances of the store, or `None` where it is more
    /// than the largest value that can be held.
    pub fn sum(&self) -> (r: Option<u128>)
        ensures
            match r {
                Some(t) => t == total(self@),
                None => total(self@) > u128::MAX,
            },
    {
        proof {
            use_type_invariant(self);
        }
        let n: usize = self.entries.len();
        let mut acc: u128 = 0;
        let mut i: usize = 0;
        assert(total(as_map(self.entries@.take(0))) == 0) by {
            lemma_as_map_finite(self.entries@.take(0));
            assert(as_map(self.entries@.take(0)).dom() =~= Set::<AccountId>::empty());
        }
        while i < n
            invariant
                i <= n,
                n == self.entries@.len(),
                distinct_accounts(self.entries@),
                acc == total(as_map(self.entries@.take(i as int))),
            decreases n - i,
        {
            proof {
                lemma_total_prefix(self.entries@, i as int);
                lemma_total_prefix(self.entries@, i + 1);
            }
            acc = match acc.checked_add(self.entries[i].balance) {
                Some(t) => t,
                None => { return None; },
            };
            i += 1;
        }
        assert(self.entries@.take(n as int) =~= self.entries@);
        Some(acc)
    }
}

/// What replacing or appending the record for `a` does to the map.
proof fn lemma_as_map_set(before: Seq<Entry>, after: Seq<Entry>, a: AccountId, v: u128)
    requires
        distinct_accounts(before),
        records(before, a) ==> exists|i: int|
            0 <= i < before.len() && before[i].account == a && after == before.update(
                i,
                Entry { account: a, balance: v },
            ),
        !records(before, a) ==> after == before.push(Entry { account: a, balance: v }),
    ensures
        distinct_accounts(after),
        as_map(after) == as_map(before).insert(a, v),
{
    let e = Entry { account: a, balance: v };
    let k: int = if records(before, a) {
        choose|i: int|
            0 <= i < before.len() && before[i].account == a && after == before.update(i, e)
    } else {
        before.len() as int
    };
    assert(after[k] == e);
    assert forall|j: int| 0 <= j < after.len() && j != k implies after[j] == before[j]
        && before[j].account != a by {
        if records(before, a) {
            if j < k {
                assert(before[j].account != before[k].account);
            } else {
                assert(before[k].account != before[j].account);
            }
        }
    }
    assert(distinct_accounts(after)) by {
        assert forall|i: int, j: int| 0 <= i < j < after.len() implies after[i].account
            != after[j].account by {
            if i != k && j != k {
                assert(before[i].account != before[j].account);
            }
        }
    }
    assert forall|b: AccountId| records(after, b) <==> (b == a || records(before, b)) by {
        if records(after, b) {
            let j = place_of(after, b);
            if j != k {
                assert(before[j].account == b);
            }
        }
        if b == a {
            assert(after[k].account == b);
        } else if records(before, b) {
            let j = place_of(before, b);
            assert(j != k);
            assert(after[j].account == b);
        }
    }
    assert forall|b: AccountId| records(after, b) implies as_map(after)[b] == as_map(
        before,
    ).insert(a, v)[b] by {
        let j = place_of(after, b);
        lemma_as_map_at(after, j);
        if j != k {
            lemma_as_map_at(before, j);
        }
    }
    assert(as_map(after) =~= as_map(before).insert(a, v));
}

/// What dropping the record for `a`, if there is one, does to the map.
proof fn lemma_as_map_remove(before: Seq<Entry>, after: Seq<Entry>, a: AccountId)
    requires
        distinct_accounts(before),
        records(before, a) ==> exists|i: int|
            0 <= i < before.len() && before[i].account == a && after == before.remove(i),
        !records(before, a) ==> after == before,
    ensures
        distinct_accounts(after),
        as_map(after) == as_map(before).remove(a),
{
    if records(before, a) {
        let k = choose|i: int|
            0 <= i < before.len() && before[i].account == a && after == before.remove(i);
        assert forall|j: int| 0 <= j < after.len() implies after[j] == before[if j < k {
            j
        } else {
            j + 1
        }] && after[j].account != a by {
            if j < k {
                assert(before[j].account != before[k].account);
            } else {
                assert(before[k].account != before[j + 1].account);
            }
        }
        assert(distinct_accounts(after)) by {
            assert forall|i: int, j: int| 0 <= i < j < after.len() implies after[i].account
                != after[j].account by {
                let i0 = if i < k { i } else { i + 1 };
                let j0 = if j < k { j } else { j + 1 };
                assert(before[i0].account != before[j0].account);
            }
        }
        assert forall|b: AccountId| records(after, b) <==> (b != a && records(before, b)) by {
            if records(after, b) {
                let j = place_of(after, b);
                let j0 = if j < k { j } else { j + 1 };
                assert(before[j0].account == b);
            }
            if b != a && records(before, b) {
                let j0 = place_of(before, b);
                let j = if j0 < k { j0 } else { j0 - 1 };
                assert(after[j].account == b);
            }
        }
        assert forall|b: AccountId| records(after, b) implies as_map(after)[b] == as_map(
            before,
        )[b] by {
            let j = place_of(after, b);
            let j0 = if j < k { j } else { j + 1 };
            lemma_as_map_at(after, j);
            lemma_as_map_at(before, j0);
        }
        assert(as_map(after) =~= as_map(before).remove(a));
    } else {
        assert(as_map(after) =~= as_map(before).remove(a));
    }
}

/// Whether no two records of `entries` are for the same account.
fn all_distinct(entries: &Vec<Entry>) -> (b: bool)
    ensures
        b == distinct_accounts(entries@),
{
    let n: usize = entries.len();
    let mut j: usize = 0;
    while j < n
        invariant
            j <= n,
            n == entries@.len(),
            forall|x: int, y: int| 0 <= x < y < j ==> entries@[x].account != entries@[y].account,
        decreases n - j,
    {
        let mut i: usize = 0;
        while i < j
            invariant
                i <= j,
                j < n,
                n == entries@.len(),
                forall|x: int| 0 <= x < i ==> entries@[x].account != entries@[j as int].account,
            decreases j - i,
        {
            if entries[i].account == entries[j].account {
                return false;
            }
            i += 1;
        }
        j += 1;
    }
    true
}

/// The records up to a place make up no more than all the records do.
proof fn lemma_total_prefix(s: Seq<Entry>, k: int)
    requires
        distinct_accounts(s),
        0 <= k <= s.len(),
    ensures
        total(as_map(s.take(k))) <= total(as_map(s)),
        k < s.len() ==> total(as_map(s.take(k + 1))) == total(as_map(s.take(k))) + s[k].balance,
    decreases s.len() - k,
{
    if k < s.len() {
        let p = s.take(k);
        let q = s.take(k + 1);
        let e = s[k];
        assert(q =~= p.push(e));
        assert(!records(p, e.account)) by {
            if records(p, e.account) {
                let i = place_of(p, e.account);
                assert(s[i].account == s[k].account);
            }
        }
        lemma_as_map_set(p, q, e.account, e.balance);
        lemma_as_map_finite(p);
        lemma_total_insert(as_map(p), e.account, e.balance);
        lemma_total_prefix(s, k + 1);
    } else {
        assert(s.take(k) =~= s);
    }
}

} // verus!
