use pol_ledger::account::AccountId;
use pol_ledger::ledger::Entry;
use pol_ledger::treasury::{Error, SuccessfulDeposit, SuccessfulWithdrawl, Treasury};

fn account(tag: u8) -> AccountId {
    AccountId { bytes: [tag; 32] }
}

fn sum_of_entries(treasury: &Treasury) -> u128 {
    treasury.entries().iter().map(|e| e.balance).sum()
}

#[test]
fn new_works() {
    let treasury = Treasury::new();
    assert_eq!(treasury.tvl(), 0);
}

#[test]
fn default_works() {
    let treasury = Treasury::default();
    assert_eq!(treasury.tvl(), 0);
}

#[test]
fn deposit_and_get_balance_works() {
    let mut treasury = Treasury::new();
    let bob = account(2);

    let event = treasury.deposit(bob, 90);

    assert_eq!(
        event,
        Ok(SuccessfulDeposit { from: Some(bob), new_balance: Some(90) })
    );
    assert_eq!(treasury.tvl(), 90);
    assert_eq!(treasury.get_balance(bob), Some(90));
}

#[test]
fn deposit_event_works() {
    let mut treasury = Treasury::new();
    let alice = account(1);
    let event = treasury.deposit(alice, 0);
    assert_eq!(treasury.get_balance(alice), Some(0));
    assert_eq!(
        event,
        Ok(SuccessfulDeposit { from: Some(alice), new_balance: Some(0) })
    );
}

#[test]
fn returns_error_if_withdraw_0_funds() {
    let mut treasury = Treasury::new();
    let alice = account(1);
    assert!(treasury.deposit(alice, 0).is_ok());
    assert_eq!(treasury.withdraw_all(alice), Err(Error::NoFunds));
    assert_eq!(treasury.get_balance(alice), Some(0));
    assert_eq!(treasury.tvl(), 0);
}

#[test]
fn withdraw_works() {
    let mut treasury = Treasury::new();
    let alice = account(1);

    assert_eq!(treasury.get_balance(alice), None);

    assert!(treasury.deposit(alice, 400).is_ok());
    assert_eq!(treasury.get_balance(alice), Some(400));

    let (remaining_user_bal, event) = treasury.withdraw(alice, 300).unwrap();
    assert_eq!(remaining_user_bal, 100);
    assert_eq!(event, SuccessfulWithdrawl { from: Some(alice), amount: Some(300) });
    assert_eq!(treasury.get_balance(alice), Some(100));
}

#[test]
fn self_service_scenario() {
    let mut treasury = Treasury::new();
    let a = account(7);
    assert!(treasury.deposit(a, 400).is_ok());
    assert_eq!(treasury.get_balance(a), Some(400));
    assert_eq!(treasury.tvl(), 400);
    let (left, _) = treasury.withdraw(a, 300).unwrap();
    assert_eq!(left, 100);
    assert_eq!(treasury.tvl(), 100);
}

#[test]
fn tvl_is_sum_of_balances_after_each_step() {
    let mut treasury = Treasury::new();
    let (a, b, c) = (account(1), account(2), account(3));
    assert_eq!(sum_of_entries(&treasury), treasury.tvl());
    assert!(treasury.deposit(a, 10).is_ok());
    assert_eq!(sum_of_entries(&treasury), treasury.tvl());
    assert!(treasury.deposit(b, 25).is_ok());
    assert_eq!(sum_of_entries(&treasury), treasury.tvl());
    assert!(treasury.deposit(a, 5).is_ok());
    assert_eq!(treasury.tvl(), 40);
    assert_eq!(sum_of_entries(&treasury), 40);
    assert!(treasury.withdraw(b, 20).is_ok());
    assert_eq!(treasury.tvl(), 20);
    assert_eq!(sum_of_entries(&treasury), 20);
    assert!(treasury.withdraw_all(a).is_ok());
    assert_eq!(treasury.tvl(), 5);
    assert_eq!(sum_of_entries(&treasury), 5);
    assert_eq!(treasury.withdraw(c, 1), Err(Error::NoFunds));
    assert_eq!(treasury.tvl(), 5);
    assert_eq!(sum_of_entries(&treasury), 5);
}

#[test]
fn two_deposits_equal_one_deposit_of_the_sum() {
    let a = account(4);
    let mut twice = Treasury::new();
    assert!(twice.deposit(a, 3).is_ok());
    assert!(twice.deposit(a, 120).is_ok());
    assert!(twice.deposit(a, 77).is_ok());

    let mut once = Treasury::new();
    assert!(once.deposit(a, 3).is_ok());
    assert!(once.deposit(a, 197).is_ok());

    assert_eq!(twice.get_balance(a), Some(200));
    assert_eq!(twice.get_balance(a), once.get_balance(a));
    assert_eq!(twice.tvl(), once.tvl());
}

#[test]
fn withdraw_of_the_balance_or_more_removes_the_record() {
    let a = account(5);
    let b = account(6);

    let mut exact = Treasury::new();
    assert!(exact.deposit(a, 50).is_ok());
    assert!(exact.deposit(b, 9).is_ok());
    let (left, event) = exact.withdraw(a, 50).unwrap();
    assert_eq!(left, 0);
    assert_eq!(event.amount, Some(50));
    assert_eq!(exact.get_balance(a), None);
    assert_eq!(exact.get_balance(b), Some(9));
    assert_eq!(exact.tvl(), 9);

    let mut more = Treasury::new();
    assert!(more.deposit(a, 50).is_ok());
    let (left, event) = more.withdraw(a, u128::MAX).unwrap();
    assert_eq!(left, 0);
    assert_eq!(event, SuccessfulWithdrawl { from: Some(a), amount: Some(50) });
    assert_eq!(more.get_balance(a), None);
    assert_eq!(more.tvl(), 0);
}

#[test]
fn withdraw_of_less_than_the_balance_leaves_the_rest() {
    let a = account(5);
    let mut treasury = Treasury::new();
    assert!(treasury.deposit(a, 50).is_ok());
    let (left, event) = treasury.withdraw(a, 49).unwrap();
    assert_eq!(left, 1);
    assert_eq!(event.amount, Some(49));
    assert_eq!(treasury.get_balance(a), Some(1));
    assert_eq!(treasury.tvl(), 1);
    let (left, event) = treasury.withdraw(a, 0).unwrap();
    assert_eq!(left, 1);
    assert_eq!(event.amount, Some(0));
    assert_eq!(treasury.get_balance(a), Some(1));
}

#[test]
fn withdraw_without_a_balance_fails() {
    let mut treasury = Treasury::new();
    assert!(treasury.deposit(account(1), 10).is_ok());
    assert_eq!(treasury.withdraw(account(2), 5), Err(Error::NoFunds));
    assert_eq!(treasury.get_balance(account(1)), Some(10));
    assert_eq!(treasury.tvl(), 10);
}

#[test]
fn withdraw_all_without_funds_fails() {
    let mut treasury = Treasury::new();
    let a = account(1);
    assert_eq!(treasury.withdraw_all(a), Err(Error::NoFunds));
    assert_eq!(treasury.get_balance(a), None);
    assert!(treasury.deposit(a, 12).is_ok());
    assert_eq!(
        treasury.withdraw_all(a),
        Ok(SuccessfulWithdrawl { from: Some(a), amount: Some(12) })
    );
    assert_eq!(treasury.get_balance(a), None);
    assert_eq!(treasury.tvl(), 0);
    assert_eq!(treasury.withdraw_all(a), Err(Error::NoFunds));
}

#[test]
fn deposit_past_the_largest_balance_fails_and_changes_nothing() {
    let mut treasury = Treasury::new();
    let a = account(1);
    assert!(treasury.deposit(a, u128::MAX).is_ok());
    assert_eq!(treasury.deposit(a, 1), Err(Error::ArithmeticOverflow));
    assert_eq!(treasury.get_balance(a), Some(u128::MAX));
    assert_eq!(treasury.tvl(), u128::MAX);
    assert!(treasury.deposit(a, 0).is_ok());
}

#[test]
fn deposit_past_the_largest_total_fails_and_changes_nothing() {
    let mut treasury = Treasury::new();
    let (a, b) = (account(1), account(2));
    assert!(treasury.deposit(a, u128::MAX - 5).is_ok());
    assert_eq!(treasury.deposit(b, 10), Err(Error::ArithmeticOverflow));
    assert_eq!(treasury.get_balance(b), None);
    assert_eq!(treasury.get_balance(a), Some(u128::MAX - 5));
    assert_eq!(treasury.tvl(), u128::MAX - 5);
    assert!(treasury.deposit(b, 5).is_ok());
    assert_eq!(treasury.tvl(), u128::MAX);
}

#[test]
fn treasury_from_parts_checks_the_parts() {
    let (a, b) = (account(1), account(2));
    let entries = vec![Entry { account: a, balance: 4 }, Entry { account: b, balance: 6 }];
    let treasury = Treasury::from_parts(entries.clone(), 10).unwrap();
    assert_eq!(treasury.get_balance(a), Some(4));
    assert_eq!(treasury.get_balance(b), Some(6));
    assert_eq!(treasury.tvl(), 10);
    assert_eq!(treasury.entries().len(), 2);

    assert!(Treasury::from_parts(entries.clone(), 11).is_none());
    let twice = vec![Entry { account: a, balance: 4 }, Entry { account: a, balance: 6 }];
    assert!(Treasury::from_parts(twice, 10).is_none());
    let large = vec![
        Entry { account: a, balance: u128::MAX },
        Entry { account: b, balance: 1 },
    ];
    assert!(Treasury::from_parts(large, 0).is_none());
    assert!(Treasury::from_parts(Vec::new(), 0).is_some());
}
