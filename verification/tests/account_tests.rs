//! Per-account transition tests. Amounts are in ten-thousandths of a
//! currency unit: 15000 is 1.5.

use ledger::accounts::ClientAccount;
use ledger::transactions::Transaction;

#[test]
fn add_deposit_test() {
    let mut client_account = ClientAccount::new(1);
    let transaction = Transaction::new_deposit(1, 1, Some(15000));

    client_account.deposit_to_account(transaction);
    assert_eq!(client_account.available, 15000);
    assert_eq!(client_account.total, 15000);
}

#[test]
fn withdraw_funds_test() {
    let mut client_account = ClientAccount::new_for_testing(1, 50000);
    let transaction = Transaction::new_withdrawal(1, 1, Some(15000));

    client_account.withdraw_from_account(transaction);
    assert_eq!(client_account.available, 35000);
    assert_eq!(client_account.total, 35000);
}

#[test]
fn withdraw_funds_more_than_avail() {
    let mut client_account = ClientAccount::new_for_testing(1, 20000);
    let transaction = Transaction::new_withdrawal(1, 1, Some(30000));

    client_account.withdraw_from_account(transaction);
    assert_eq!(client_account.available, 20000);
    assert_eq!(client_account.total, 20000);
}

#[test]
fn dispute_funds_avail() {
    let mut client_account = ClientAccount::new_for_testing(1, 20000);
    let transaction = Transaction::new_deposit(1, 1, Some(30000));
    let dispute = Transaction::new_dispute(1, 1);
    client_account.deposit_to_account(transaction);
    client_account.dispute_to_account(dispute);

    assert_eq!(client_account.available, 20000);
    assert_eq!(client_account.held, 30000);
    assert_eq!(client_account.total, 50000);
}

#[test]
fn resolve_funds_avail() {
    let mut client_account = ClientAccount::new_for_testing(1, 20000);
    let transaction = Transaction::new_deposit(1, 1, Some(30000));
    let dispute = Transaction::new_dispute(1, 1);
    let resolve = Transaction::new_resolve(1, 1);
    client_account.deposit_to_account(transaction);
    client_account.dispute_to_account(dispute);
    client_account.resolve_to_account(resolve);

    assert_eq!(client_account.available, 50000);
    assert_eq!(client_account.held, 0);
    assert_eq!(client_account.total, 50000);
}

#[test]
fn chargeback_lock_account() {
    let mut client_account = ClientAccount::new_for_testing(1, 20000);
    let transaction = Transaction::new_deposit(1, 1, Some(30000));
    let dispute = Transaction::new_dispute(1, 1);
    let chargeback_trx = Transaction::new_chargeback(1, 1);
    client_account.deposit_to_account(transaction);
    client_account.dispute_to_account(dispute);
    client_account.chargeback_to_account(chargeback_trx);

    assert_eq!(client_account.available, 20000);
    assert_eq!(client_account.held, 0);
    assert_eq!(client_account.total, 20000);
    assert_eq!(client_account.locked, true);
}

#[test]
fn lock_account() {
    let mut client_account = ClientAccount::new_for_testing(1, 20000);

    client_account.lock_account();
    assert_eq!(client_account.locked, true);
}

#[test]
fn deposit_on_locked_account_is_noop() {
    let mut client_account = ClientAccount::new_for_testing(1, 20000);
    client_account.lock_account();

    client_account.deposit_to_account(Transaction::new_deposit(1, 1, Some(30000)));
    assert_eq!(client_account.available, 20000);
    assert_eq!(client_account.held, 0);
    assert_eq!(client_account.total, 20000);
}

#[test]
fn deposit_past_the_representable_range_is_noop() {
    let mut client_account = ClientAccount::new(1);
    client_account.deposit_to_account(Transaction::new_deposit(1, 1, Some(i64::MAX)));
    assert_eq!(client_account.available, i64::MAX);

    // a further deposit would overflow the balance: dropped
    client_account.deposit_to_account(Transaction::new_deposit(1, 2, Some(1)));
    assert_eq!(client_account.available, i64::MAX);
    assert_eq!(client_account.total, i64::MAX);
}

#[test]
fn dispute_unknown_tx_is_noop() {
    let mut client_account = ClientAccount::new_for_testing(1, 20000);
    client_account.dispute_to_account(Transaction::new_dispute(1, 7));

    assert_eq!(client_account.available, 20000);
    assert_eq!(client_account.held, 0);
    assert_eq!(client_account.total, 20000);
}

#[test]
fn resolve_without_dispute_is_noop() {
    let mut client_account = ClientAccount::new(1);
    client_account.deposit_to_account(Transaction::new_deposit(1, 1, Some(30000)));
    client_account.resolve_to_account(Transaction::new_resolve(1, 1));

    assert_eq!(client_account.available, 30000);
    assert_eq!(client_account.held, 0);
    assert_eq!(client_account.total, 30000);
}

#[test]
fn chargeback_without_dispute_is_noop() {
    let mut client_account = ClientAccount::new(1);
    client_account.deposit_to_account(Transaction::new_deposit(1, 1, Some(30000)));
    client_account.chargeback_to_account(Transaction::new_chargeback(1, 1));

    assert_eq!(client_account.available, 30000);
    assert_eq!(client_account.held, 0);
    assert_eq!(client_account.total, 30000);
    assert_eq!(client_account.locked, false);
}

#[test]
fn second_dispute_is_noop() {
    let mut client_account = ClientAccount::new(1);
    client_account.deposit_to_account(Transaction::new_deposit(1, 1, Some(30000)));
    client_account.dispute_to_account(Transaction::new_dispute(1, 1));
    client_account.dispute_to_account(Transaction::new_dispute(1, 1));

    // the amount is held once, never double-held
    assert_eq!(client_account.available, 0);
    assert_eq!(client_account.held, 30000);
    assert_eq!(client_account.total, 30000);
}

#[test]
fn redispute_after_resolve() {
    let mut client_account = ClientAccount::new(1);
    client_account.deposit_to_account(Transaction::new_deposit(1, 1, Some(30000)));
    client_account.dispute_to_account(Transaction::new_dispute(1, 1));
    client_account.resolve_to_account(Transaction::new_resolve(1, 1));
    client_account.dispute_to_account(Transaction::new_dispute(1, 1));

    assert_eq!(client_account.available, 0);
    assert_eq!(client_account.held, 30000);
    assert_eq!(client_account.total, 30000);
}

#[test]
fn dispute_of_withdrawal_holds_its_amount() {
    let mut client_account = ClientAccount::new(1);
    client_account.deposit_to_account(Transaction::new_deposit(1, 1, Some(20000)));
    client_account.withdraw_from_account(Transaction::new_withdrawal(1, 2, Some(10000)));
    client_account.dispute_to_account(Transaction::new_dispute(1, 2));

    assert_eq!(client_account.available, 0);
    assert_eq!(client_account.held, 10000);
    assert_eq!(client_account.total, 10000);
}
