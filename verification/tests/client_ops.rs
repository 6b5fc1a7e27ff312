//! Tests of the account-level balance operations. Amounts are fixed-point:
//! one currency unit is 10000.

use tix::error::TixError;
use tix::models::client::Client;

#[test]
fn actions() -> Result<(), TixError> {
    let mut client: Client = Client {
        id: 0,
        available: 100000,
        held: 0,
        total: 100000,
        locked: false,
    };
    client.deposit(50000)?;
    assert_eq!(client.available, 150000);
    client.withdrawal(20000)?;
    assert_eq!(client.total, 130000);

    assert_eq!(client.total, client.available + client.held);

    Ok(())
}

#[test]
fn deposit_on_locked_account_fails() {
    let mut client = Client { id: 7, available: 0, held: 0, total: 0, locked: true };
    assert_eq!(client.deposit(100), Err(TixError::AccountLocked(7)));
    assert_eq!(client.available, 0);
    assert_eq!(client.total, 0);
}

#[test]
fn deposit_overflow_is_rejected() {
    let mut client = Client { id: 3, available: u64::MAX, held: 0, total: u64::MAX, locked: false };
    assert_eq!(client.deposit(1), Err(TixError::BalanceOverflow(3)));
    assert_eq!(client.available, u64::MAX);
    assert_eq!(client.total, u64::MAX);
}

#[test]
fn withdrawal_insufficient_funds() {
    let mut client = Client { id: 1, available: 100, held: 50, total: 150, locked: false };
    assert_eq!(client.withdrawal(101), Err(TixError::InsufficientFunds(1)));
    assert_eq!(client.available, 100);
    assert_eq!(client.held, 50);
    assert_eq!(client.total, 150);
}

#[test]
fn dispute_moves_available_to_held() {
    let mut client = Client { id: 1, available: 100, held: 0, total: 100, locked: false };
    assert_eq!(client.dispute(60), Ok(()));
    assert_eq!((client.available, client.held, client.total), (40, 60, 100));
    assert_eq!(client.dispute(41), Err(TixError::InsufficientFunds(1)));
    assert_eq!((client.available, client.held, client.total), (40, 60, 100));
}

#[test]
fn resolve_moves_held_to_available() {
    let mut client = Client { id: 1, available: 40, held: 60, total: 100, locked: false };
    assert_eq!(client.resolve(60), Ok(()));
    assert_eq!((client.available, client.held, client.total), (100, 0, 100));
    assert_eq!(client.resolve(1), Err(TixError::InsufficientHeldFunds(1)));
}

#[test]
fn chargeback_removes_held_and_locks() {
    let mut client = Client { id: 1, available: 40, held: 60, total: 100, locked: false };
    assert_eq!(client.chargeback(60), Ok(()));
    assert_eq!((client.available, client.held, client.total), (40, 0, 40));
    assert!(client.locked);
    assert_eq!(client.deposit(1), Err(TixError::AccountLocked(1)));
}
