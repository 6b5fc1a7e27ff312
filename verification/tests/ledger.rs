//! End-to-end tests of the ledger state machine, following the documented
//! scenarios. Amounts are fixed-point: 1.0 currency unit is 10000.

use tix::engine::Engine;
use tix::error::TixError;
use tix::models::client::Client;
use tix::models::transaction::{Transaction, TxType};

fn tx(kind: TxType, id: u32, client: u16, amount: Option<u64>) -> Transaction {
    Transaction { tx: id, tx_type: kind, client, amount, is_disputed: false }
}

fn balances(e: &Engine, client: u16) -> (u64, u64, u64, bool) {
    let c: &Client = e
        .clients
        .content
        .iter()
        .find(|c| c.id == client)
        .expect("account should exist");
    (c.available, c.held, c.total, c.locked)
}

/// Scenario 1: three deposits and two withdrawals, the last one rejected.
fn scenario_one() -> Engine {
    let mut e = Engine::new();
    assert_eq!(e.add(&tx(TxType::Deposit, 1, 1, Some(10000))), Ok(()));
    assert_eq!(e.add(&tx(TxType::Deposit, 2, 2, Some(20000))), Ok(()));
    assert_eq!(e.add(&tx(TxType::Deposit, 3, 1, Some(20000))), Ok(()));
    assert_eq!(e.add(&tx(TxType::Withdrawal, 4, 1, Some(15000))), Ok(()));
    assert_eq!(
        e.add(&tx(TxType::Withdrawal, 5, 2, Some(30000))),
        Err(TixError::InsufficientFunds(2))
    );
    e
}

#[test]
fn deposits_and_withdrawals() {
    let e = scenario_one();
    assert_eq!(balances(&e, 1), (15000, 0, 15000, false));
    assert_eq!(balances(&e, 2), (20000, 0, 20000, false));
}

#[test]
fn dispute_larger_than_available_fails() {
    let mut e = scenario_one();
    // Entry 3 moved 2.0, but client 1 has only 1.5 available: the dispute is
    // rejected and nothing changes.
    assert_eq!(e.add(&tx(TxType::Dispute, 3, 1, None)), Err(TixError::InsufficientFunds(1)));
    assert_eq!(balances(&e, 1), (15000, 0, 15000, false));
    assert!(!e.tx_history.content.iter().any(|t| t.is_disputed));
}

#[test]
fn dispute_then_resolve() {
    let mut e = scenario_one();
    assert_eq!(e.add(&tx(TxType::Dispute, 1, 1, None)), Ok(()));
    assert_eq!(balances(&e, 1), (5000, 10000, 15000, false));
    assert_eq!(e.add(&tx(TxType::Resolve, 1, 1, None)), Ok(()));
    assert_eq!(balances(&e, 1), (15000, 0, 15000, false));
}

#[test]
fn chargeback_locks_the_account() {
    let mut e = scenario_one();
    assert_eq!(e.add(&tx(TxType::Dispute, 1, 1, None)), Ok(()));
    assert_eq!(e.add(&tx(TxType::Chargeback, 1, 1, None)), Ok(()));
    assert_eq!(balances(&e, 1), (5000, 0, 5000, true));
    assert_eq!(
        e.add(&tx(TxType::Deposit, 6, 1, Some(50000))),
        Err(TixError::AccountLocked(1))
    );
    assert_eq!(balances(&e, 1), (5000, 0, 5000, true));
}

#[test]
fn dispute_of_unknown_transaction_fails() {
    let mut e = Engine::new();
    assert_eq!(
        e.add(&tx(TxType::Dispute, 99, 1, None)),
        Err(TixError::TransactionNotFound(99))
    );
    // The get-or-create step still created the zeroed account for client 1,
    // and nothing else.
    assert_eq!(e.clients.content.len(), 1);
    assert_eq!(balances(&e, 1), (0, 0, 0, false));
    assert!(e.tx_history.content.is_empty());
}

#[test]
fn balance_invariant_holds_after_every_apply() {
    let mut e = Engine::new();
    let stream = [
        tx(TxType::Deposit, 1, 1, Some(10000)),
        tx(TxType::Deposit, 2, 2, Some(20000)),
        tx(TxType::Deposit, 3, 1, Some(20000)),
        tx(TxType::Withdrawal, 4, 1, Some(15000)),
        tx(TxType::Withdrawal, 5, 2, Some(30000)),
        tx(TxType::Dispute, 1, 1, None),
        tx(TxType::Dispute, 3, 1, None),
        tx(TxType::Resolve, 1, 1, None),
        tx(TxType::Chargeback, 1, 1, None),
        tx(TxType::Deposit, 6, 1, Some(100)),
        tx(TxType::Deposit, 7, 7, None),
    ];
    for t in stream.iter() {
        let _ = e.add(t);
        for c in e.clients.content.iter() {
            assert_eq!(c.total, c.available + c.held);
        }
    }
}

#[test]
fn duplicate_transaction_id_is_rejected() {
    let mut e = Engine::new();
    assert_eq!(e.add(&tx(TxType::Deposit, 1, 1, Some(10000))), Ok(()));
    assert_eq!(
        e.add(&tx(TxType::Deposit, 1, 1, Some(99999))),
        Err(TixError::DuplicateTransaction(1))
    );
    // The first entry and the balances are untouched.
    assert_eq!(e.tx_history.content.len(), 1);
    assert_eq!(e.tx_history.content[0].amount, Some(10000));
    assert_eq!(balances(&e, 1), (10000, 0, 10000, false));
    // A withdrawal under a used id is rejected the same way.
    assert_eq!(
        e.add(&tx(TxType::Withdrawal, 1, 1, Some(100))),
        Err(TixError::DuplicateTransaction(1))
    );
    assert_eq!(balances(&e, 1), (10000, 0, 10000, false));
}

#[test]
fn resolve_and_chargeback_require_a_disputed_entry() {
    let mut e = Engine::new();
    assert_eq!(e.add(&tx(TxType::Deposit, 1, 1, Some(10000))), Ok(()));
    assert_eq!(e.add(&tx(TxType::Resolve, 1, 1, None)), Err(TixError::NotDisputed(1)));
    assert_eq!(e.add(&tx(TxType::Chargeback, 1, 1, None)), Err(TixError::NotDisputed(1)));
    assert_eq!(balances(&e, 1), (10000, 0, 10000, false));
    assert!(!e.tx_history.content[0].is_disputed);
}

#[test]
fn locked_account_rejects_every_kind() {
    let mut e = Engine::new();
    assert_eq!(e.add(&tx(TxType::Deposit, 1, 1, Some(10000))), Ok(()));
    assert_eq!(e.add(&tx(TxType::Deposit, 2, 1, Some(10000))), Ok(()));
    assert_eq!(e.add(&tx(TxType::Dispute, 1, 1, None)), Ok(()));
    assert_eq!(e.add(&tx(TxType::Dispute, 2, 1, None)), Ok(()));
    assert_eq!(e.add(&tx(TxType::Chargeback, 1, 1, None)), Ok(()));
    let before = balances(&e, 1);
    assert!(before.3);
    assert_eq!(
        e.add(&tx(TxType::Deposit, 3, 1, Some(100))),
        Err(TixError::AccountLocked(1))
    );
    assert_eq!(
        e.add(&tx(TxType::Withdrawal, 4, 1, Some(100))),
        Err(TixError::AccountLocked(1))
    );
    assert_eq!(e.add(&tx(TxType::Dispute, 2, 1, None)), Err(TixError::AccountLocked(1)));
    assert_eq!(e.add(&tx(TxType::Resolve, 2, 1, None)), Err(TixError::AccountLocked(1)));
    assert_eq!(e.add(&tx(TxType::Chargeback, 2, 1, None)), Err(TixError::AccountLocked(1)));
    assert_eq!(balances(&e, 1), before);
}

#[test]
fn missing_amount_is_invalid() {
    let mut e = Engine::new();
    assert_eq!(e.add(&tx(TxType::Deposit, 1, 1, None)), Err(TixError::InvalidTransaction(1)));
    assert_eq!(e.add(&tx(TxType::Withdrawal, 2, 1, None)), Err(TixError::InvalidTransaction(2)));
    assert!(e.tx_history.content.is_empty());
    assert_eq!(balances(&e, 1), (0, 0, 0, false));
}

#[test]
fn resolve_with_insufficient_held_funds_fails() {
    let mut e = Engine::new();
    // Client 1 logs the deposit; client 2 disputes it, so client 1's own
    // held funds never cover the entry's amount.
    assert_eq!(e.add(&tx(TxType::Deposit, 1, 1, Some(10000))), Ok(()));
    assert_eq!(e.add(&tx(TxType::Deposit, 2, 2, Some(10000))), Ok(()));
    assert_eq!(e.add(&tx(TxType::Dispute, 1, 2, None)), Ok(()));
    assert_eq!(
        e.add(&tx(TxType::Resolve, 1, 1, None)),
        Err(TixError::InsufficientHeldFunds(1))
    );
    assert_eq!(balances(&e, 1), (10000, 0, 10000, false));
}

#[test]
fn snapshot_is_idempotent_and_ordered() {
    let mut e = Engine::new();
    assert_eq!(e.add(&tx(TxType::Deposit, 1, 5, Some(100))), Ok(()));
    assert_eq!(e.add(&tx(TxType::Deposit, 2, 3, Some(200))), Ok(()));
    assert_eq!(e.add(&tx(TxType::Deposit, 3, 5, Some(300))), Ok(()));
    let a = e.snapshot();
    let b = e.snapshot();
    assert_eq!(a, b);
    // Creation order, not id order.
    let ids: Vec<u16> = a.iter().map(|c| c.id).collect();
    assert_eq!(ids, vec![5, 3]);
    assert_eq!(a[0].available, 400);
    assert_eq!(a[1].available, 200);
}

#[test]
fn dispute_of_an_already_disputed_entry_double_counts() {
    let mut e = Engine::new();
    assert_eq!(e.add(&tx(TxType::Deposit, 1, 1, Some(10000))), Ok(()));
    assert_eq!(e.add(&tx(TxType::Deposit, 2, 1, Some(10000))), Ok(()));
    assert_eq!(e.add(&tx(TxType::Dispute, 1, 1, None)), Ok(()));
    // The entry is already disputed; a second dispute is not rejected and
    // moves the amount again.
    assert_eq!(e.add(&tx(TxType::Dispute, 1, 1, None)), Ok(()));
    assert_eq!(balances(&e, 1), (0, 20000, 20000, false));
}

#[test]
fn overflow_is_rejected_and_state_kept() {
    let mut e = Engine::new();
    assert_eq!(e.add(&tx(TxType::Deposit, 1, 1, Some(u64::MAX))), Ok(()));
    assert_eq!(
        e.add(&tx(TxType::Deposit, 2, 1, Some(1))),
        Err(TixError::BalanceOverflow(1))
    );
    assert_eq!(balances(&e, 1), (u64::MAX, 0, u64::MAX, false));
    assert_eq!(e.tx_history.content.len(), 1);
}
