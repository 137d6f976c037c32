use pol_ledger::account::AccountId;
use pol_ledger::engine::LedgerState;
use pol_ledger::ledger::{Entry, Ledger};

fn account(tag: u8) -> AccountId {
    AccountId { bytes: [tag; 32] }
}

#[test]
fn accounts_are_equal_when_all_bytes_agree() {
    let a = account(1);
    let mut b = account(1);
    assert!(a == b);
    b.bytes[31] = 2;
    assert!(a != b);
    b.bytes[31] = 1;
    b.bytes[0] = 0;
    assert!(a != b);
}

#[test]
fn store_gets_what_was_set() {
    let mut ledger = Ledger::new();
    let (a, b) = (account(1), account(2));
    assert_eq!(ledger.get(a), None);
    ledger.set(a, 5);
    ledger.set(b, 7);
    assert_eq!(ledger.get(a), Some(5));
    assert_eq!(ledger.get(b), Some(7));
    ledger.set(a, 6);
    assert_eq!(ledger.get(a), Some(6));
    assert_eq!(ledger.get(b), Some(7));
    assert_eq!(ledger.entries().len(), 2);
    assert_eq!(ledger.sum(), Some(13));
}

#[test]
fn store_forgets_what_was_removed() {
    let mut ledger = Ledger::new();
    let (a, b, c) = (account(1), account(2), account(3));
    ledger.set(a, 5);
    ledger.set(b, 7);
    ledger.set(c, 9);
    ledger.remove(b);
    assert_eq!(ledger.get(a), Some(5));
    assert_eq!(ledger.get(b), None);
    assert_eq!(ledger.get(c), Some(9));
    ledger.remove(b);
    assert_eq!(ledger.entries().len(), 2);
    assert_eq!(ledger.sum(), Some(14));
}

#[test]
fn remove_and_set_zero_sum_alike() {
    let (a, b) = (account(1), account(2));
    let mut removed = Ledger::new();
    removed.set(a, 5);
    removed.set(b, 7);
    removed.remove(a);
    let mut zeroed = Ledger::new();
    zeroed.set(a, 5);
    zeroed.set(b, 7);
    zeroed.set(a, 0);
    assert_eq!(removed.sum(), Some(7));
    assert_eq!(zeroed.sum(), Some(7));
    assert_eq!(removed.get(a).unwrap_or(0), zeroed.get(a).unwrap_or(0));
    assert_eq!(removed.get(a), None);
    assert_eq!(zeroed.get(a), Some(0));
}

#[test]
fn store_from_entries_refuses_an_account_twice() {
    let (a, b) = (account(1), account(2));
    let good = vec![Entry { account: a, balance: 1 }, Entry { account: b, balance: 1 }];
    let ledger = Ledger::from_entries(good).unwrap();
    assert_eq!(ledger.get(b), Some(1));
    let bad = vec![
        Entry { account: a, balance: 1 },
        Entry { account: b, balance: 1 },
        Entry { account: a, balance: 2 },
    ];
    assert!(Ledger::from_entries(bad).is_none());
}

#[test]
fn sum_past_the_largest_value_is_none() {
    let mut ledger = Ledger::new();
    ledger.set(account(1), u128::MAX);
    assert_eq!(ledger.sum(), Some(u128::MAX));
    ledger.set(account(2), 1);
    assert_eq!(ledger.sum(), None);
}

#[test]
fn state_deposits_and_withdraws() {
    let (a, b) = (account(1), account(2));
    let mut state = LedgerState::new();
    assert_eq!(state.tvl(), 0);
    assert_eq!(state.deposit(a, 30), Some(30));
    assert_eq!(state.deposit(a, 12), Some(42));
    assert_eq!(state.deposit(b, u128::MAX), None);
    assert_eq!(state.get_balance(b), None);
    assert_eq!(state.tvl(), 42);
    assert_eq!(state.withdraw(a, 2), Some((2, 40)));
    assert_eq!(state.withdraw(a, 41), Some((40, 0)));
    assert_eq!(state.withdraw(a, 1), None);
    assert_eq!(state.deposit(b, 8), Some(8));
    assert_eq!(state.withdraw_all(b), Some(8));
    assert_eq!(state.withdraw_all(b), None);
    assert_eq!(state.tvl(), 0);
    assert!(state.entries().is_empty());
}

#[test]
fn state_from_parts_needs_the_sum() {
    let entries = vec![Entry { account: account(1), balance: 3 }];
    assert!(LedgerState::from_parts(entries.clone(), 3).is_some());
    assert!(LedgerState::from_parts(entries, 4).is_none());
}
