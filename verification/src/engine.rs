//! The ledger state machine: one transaction at a time is applied to the
//! account store and the transaction log, atomically — a rejected
//! transaction leaves every balance and every logged entry unchanged (a
//! previously unseen client id still gets its zeroed account).
//!
//! `spec_apply` is the mathematical transition: it says, for every input,
//! the exact next state of both stores and the exact verdict, and
//! `Engine::add` is proved to implement it.

use vstd::prelude::*;

use crate::error::TixError;
use crate::models::client::{
    all_wf, chargeback_outcome, client_index, deposit_outcome, dispute_outcome, has_client,
    ids_unique, resolve_outcome, withdrawal_outcome, zero_client, Client, Clients,
};
use crate::models::transaction::{
    has_tx, tx_ids_unique, tx_index, Transaction, TxHistory, TxType,
};

verus! {

/// The entry that a successfully applied deposit or withdrawal leaves in the
/// log: the transaction itself, with the dispute flag cleared.
pub open spec fn logged(t: Transaction) -> Transaction {
    Transaction { is_disputed: false, ..t }
}

/// The account store after the get-or-create step: unchanged when an account
/// for `id` exists, otherwise with a zeroed account appended.
pub open spec fn with_account(cs: Seq<Client>, id: u16) -> Seq<Client> {
    if has_client(cs, id) {
        cs
    } else {
        cs.push(zero_client(id))
    }
}

/// The transition relation of the ledger: from the accounts `cs0` and the
/// log `ts`, applying `t` yields the new accounts, the new log, and the
/// verdict.
///
/// Rejections are checked in a fixed order. For a deposit or withdrawal:
/// missing amount, then the balance check (lock, overflow or funds), then a
/// duplicate transaction id. For a dispute: unknown id, then a logged entry
/// without an amount, then the balance check. For a resolve or chargeback:
/// unknown id, then an entry not under dispute, then a missing amount, then
/// the balance check. Nothing but the get-or-create step changes on a
/// rejection.
///
/// A dispute does not check whether the entry is already under dispute:
/// disputing the same entry twice moves its amount from available to held
/// twice. This mirrors the ledger's documented behaviour and is pinned by a
/// test.
pub open spec fn spec_apply(cs0: Seq<Client>, ts: Seq<Transaction>, t: Transaction) -> (
    Seq<Client>,
    Seq<Transaction>,
    Result<(), TixError>,
) {
    let cs = with_account(cs0, t.client);
    let i = client_index(cs, t.client);
    let c = cs[i];
    match t.tx_type {
        TxType::Deposit => match t.amount {
            Option::None => (cs, ts, Err(TixError::InvalidTransaction(t.tx))),
            Option::Some(a) => {
                let oc = deposit_outcome(c, a);
                if oc.1 is Err {
                    (cs, ts, oc.1)
                } else if has_tx(ts, t.tx) {
                    (cs, ts, Err(TixError::DuplicateTransaction(t.tx)))
                } else {
                    (cs.update(i, oc.0), ts.push(logged(t)), Ok(()))
                }
            },
        },
        TxType::Withdrawal => match t.amount {
            Option::None => (cs, ts, Err(TixError::InvalidTransaction(t.tx))),
            Option::Some(a) => {
                let oc = withdrawal_outcome(c, a);
                if oc.1 is Err {
                    (cs, ts, oc.1)
                } else if has_tx(ts, t.tx) {
                    (cs, ts, Err(TixError::DuplicateTransaction(t.tx)))
                } else {
                    (cs.update(i, oc.0), ts.push(logged(t)), Ok(()))
                }
            },
        },
        TxType::Dispute => {
            if !has_tx(ts, t.tx) {
                (cs, ts, Err(TixError::TransactionNotFound(t.tx)))
            } else {
                let j = tx_index(ts, t.tx);
                let e = ts[j];
                match e.amount {
                    Option::None => (cs, ts, Err(TixError::InvalidTransaction(t.tx))),
                    Option::Some(a) => {
                        let oc = dispute_outcome(c, a);
                        if oc.1 is Err {
                            (cs, ts, oc.1)
                        } else {
                            (
                                cs.update(i, oc.0),
                                ts.update(j, Transaction { is_disputed: true, ..e }),
                                Ok(()),
                            )
                        }
                    },
                }
            }
        },
        TxType::Resolve => {
            if !has_tx(ts, t.tx) {
                (cs, ts, Err(TixError::TransactionNotFound(t.tx)))
            } else {
                let j = tx_index(ts, t.tx);
                let e = ts[j];
                if !e.is_disputed {
                    (cs, ts, Err(TixError::NotDisputed(t.tx)))
                } else {
                    match e.amount {
                        Option::None => (cs, ts, Err(TixError::InvalidTransaction(t.tx))),
                        Option::Some(a) => {
                            let oc = resolve_outcome(c, a);
                            if oc.1 is Err {
                                (cs, ts, oc.1)
                            } else {
                                (
                                    cs.update(i, oc.0),
                                    ts.update(j, Transaction { is_disputed: false, ..e }),
                                    Ok(()),
                                )
                            }
                        },
                    }
                }
            }
        },
        TxType::Chargeback => {
            if !has_tx(ts, t.tx) {
                (cs, ts, Err(TixError::TransactionNotFound(t.tx)))
            } else {
                let j = tx_index(ts, t.tx);
                let e = ts[j];
                if !e.is_disputed {
                    (cs, ts, Err(TixError::NotDisputed(t.tx)))
                } else {
                    match e.amount {
                        Option::None => (cs, ts, Err(TixError::InvalidTransaction(t.tx))),
                        Option::Some(a) => {
                            let oc = chargeback_outcome(c, a);
                            if oc.1 is Err {
                                (cs, ts, oc.1)
                            } else {
                                (
                                    cs.update(i, oc.0),
                                    ts.update(j, Transaction { is_disputed: false, ..e }),
                                    Ok(()),
                                )
                            }
                        },
                    }
                }
            }
        },
    }
}

/// Appending an account with an id not yet in the store keeps ids unique and
/// keeps every account well formed.
proof fn lemma_push_fresh_client(cs: Seq<Client>, id: u16)
    requires
        ids_unique(cs),
        all_wf(cs),
        !has_client(cs, id),
    ensures
        ids_unique(cs.push(zero_client(id))),
        all_wf(cs.push(zero_client(id))),
        has_client(cs.push(zero_client(id)), id),
{
    let cs2 = cs.push(zero_client(id));
    assert(cs2[cs.len() as int].id == id);
    assert forall|a: int, b: int| 0 <= a < b < cs2.len() implies cs2[a].id != cs2[b].id by {
        if b < cs.len() {
            assert(cs2[a] == cs[a] && cs2[b] == cs[b]);
        } else {
            assert(cs2[a] == cs[a]);
            assert(!(0 <= a < cs.len() && cs[a].id == id));
        }
    }
    assert forall|k: int| 0 <= k < cs2.len() implies cs2[k].wf() by {
        if k < cs.len() {
            assert(cs2[k] == cs[k]);
        }
    }
}

/// When ids are unique, `client_index` agrees with any position that holds
/// the id.
proof fn lemma_client_index_agrees(cs: Seq<Client>, idx: int)
    requires
        ids_unique(cs),
        0 <= idx < cs.len(),
    ensures
        has_client(cs, cs[idx].id),
        client_index(cs, cs[idx].id) == idx,
{
    let id = cs[idx].id;
    assert(has_client(cs, id));
    let k = client_index(cs, id);
    assert(0 <= k < cs.len() && cs[k].id == id);
    if k < idx {
        assert(cs[k].id != cs[idx].id);
    } else if idx < k {
        assert(cs[idx].id != cs[k].id);
    }
}

/// When transaction ids are unique, `tx_index` agrees with any position that
/// holds the id.
proof fn lemma_tx_index_agrees(ts: Seq<Transaction>, j: int)
    requires
        tx_ids_unique(ts),
        0 <= j < ts.len(),
    ensures
        has_tx(ts, ts[j].tx),
        tx_index(ts, ts[j].tx) == j,
{
    let id = ts[j].tx;
    assert(has_tx(ts, id));
    let k = tx_index(ts, id);
    assert(0 <= k < ts.len() && ts[k].tx == id);
    if k < j {
        assert(ts[k].tx != ts[j].tx);
    } else if j < k {
        assert(ts[j].tx != ts[k].tx);
    }
}

/// Replacing one account by another with the same id keeps ids unique, and
/// keeps every account well formed when the replacement is.
proof fn lemma_update_client(cs: Seq<Client>, i: int, c2: Client)
    requires
        ids_unique(cs),
        all_wf(cs),
        0 <= i < cs.len(),
        c2.id == cs[i].id,
        c2.wf(),
    ensures
        ids_unique(cs.update(i, c2)),
        all_wf(cs.update(i, c2)),
{
    let cs2 = cs.update(i, c2);
    assert forall|a: int, b: int| 0 <= a < b < cs2.len() implies cs2[a].id != cs2[b].id by {
        assert(cs[a].id != cs[b].id);
        assert(cs2[a].id == cs[a].id && cs2[b].id == cs[b].id);
    }
    assert forall|k: int| 0 <= k < cs2.len() implies cs2[k].wf() by {
        if k != i {
            assert(cs2[k] == cs[k]);
        }
    }
}

/// Appending an entry with an id not yet in the log keeps transaction ids
/// unique.
proof fn lemma_push_fresh_tx(ts: Seq<Transaction>, t: Transaction)
    requires
        tx_ids_unique(ts),
        !has_tx(ts, t.tx),
    ensures
        tx_ids_unique(ts.push(t)),
{
    let ts2 = ts.push(t);
    assert forall|a: int, b: int| 0 <= a < b < ts2.len() implies ts2[a].tx != ts2[b].tx by {
        if b < ts.len() {
            assert(ts2[a] == ts[a] && ts2[b] == ts[b]);
        } else {
            assert(ts2[a] == ts[a]);
            assert(!(0 <= a < ts.len() && ts[a].tx == t.tx));
        }
    }
}

/// Replacing one entry by another with the same id keeps transaction ids
/// unique.
proof fn lemma_update_tx(ts: Seq<Transaction>, j: int, e2: Transaction)
    requires
        tx_ids_unique(ts),
        0 <= j < ts.len(),
        e2.tx == ts[j].tx,
    ensures
        tx_ids_unique(ts.update(j, e2)),
{
    let ts2 = ts.update(j, e2);
    assert forall|a: int, b: int| 0 <= a < b < ts2.len() implies ts2[a].tx != ts2[b].tx by {
        assert(ts[a].tx != ts[b].tx);
        assert(ts2[a].tx == ts[a].tx && ts2[b].tx == ts[b].tx);
    }
}

/// Balance invariant: applying any transaction to well-formed stores leaves
/// every account satisfying `total == available + held`, whatever the
/// verdict, and keeps account ids and logged transaction ids unique.
pub proof fn lemma_apply_preserves_balance_invariant(
    cs0: Seq<Client>,
    ts: Seq<Transaction>,
    t: Transaction,
)
    requires
        ids_unique(cs0),
        all_wf(cs0),
        tx_ids_unique(ts),
    ensures
        ({
            let (cs2, ts2, r) = spec_apply(cs0, ts, t);
            all_wf(cs2) && ids_unique(cs2) && tx_ids_unique(ts2)
        }),
{
    let cs = with_account(cs0, t.client);
    if !has_client(cs0, t.client) {
        lemma_push_fresh_client(cs0, t.client);
    }
    assert(has_client(cs, t.client));
    let i = client_index(cs, t.client);
    assert(0 <= i < cs.len() && cs[i].id == t.client);
    assert(cs[i].wf());
    match t.tx_type {
        TxType::Deposit | TxType::Withdrawal => match t.amount {
            Option::None => {},
            Option::Some(a) => {
                let oc = if t.tx_type == TxType::Deposit {
                    deposit_outcome(cs[i], a)
                } else {
                    withdrawal_outcome(cs[i], a)
                };
                if oc.1 is Ok && !has_tx(ts, t.tx) {
                    lemma_update_client(cs, i, oc.0);
                    lemma_push_fresh_tx(ts, logged(t));
                }
            },
        },
        TxType::Dispute => {
            if has_tx(ts, t.tx) {
                let j = tx_index(ts, t.tx);
                assert(0 <= j < ts.len() && ts[j].tx == t.tx);
                match ts[j].amount {
                    Option::None => {},
                    Option::Some(a) => {
                        let oc = dispute_outcome(cs[i], a);
                        if oc.1 is Ok {
                            lemma_update_client(cs, i, oc.0);
                            lemma_update_tx(ts, j, Transaction { is_disputed: true, ..ts[j] });
                        }
                    },
                }
            }
        },
        TxType::Resolve => {
            if has_tx(ts, t.tx) {
                let j = tx_index(ts, t.tx);
                assert(0 <= j < ts.len() && ts[j].tx == t.tx);
                match ts[j].amount {
                    Option::None => {},
                    Option::Some(a) => {
                        let oc = resolve_outcome(cs[i], a);
                        if ts[j].is_disputed && oc.1 is Ok {
                            lemma_update_client(cs, i, oc.0);
                            lemma_update_tx(ts, j, Transaction { is_disputed: false, ..ts[j] });
                        }
                    },
                }
            }
        },
        TxType::Chargeback => {
            if has_tx(ts, t.tx) {
                let j = tx_index(ts, t.tx);
                assert(0 <= j < ts.len() && ts[j].tx == t.tx);
                match ts[j].amount {
                    Option::None => {},
                    Option::Some(a) => {
                        let oc = chargeback_outcome(cs[i], a);
                        if ts[j].is_disputed && oc.1 is Ok {
                            lemma_update_client(cs, i, oc.0);
                            lemma_update_tx(ts, j, Transaction { is_disputed: false, ..ts[j] });
                        }
                    },
                }
            }
        },
    }
}

/// Uniqueness: a deposit or withdrawal whose transaction id is already in
/// the log is rejected and leaves the log — the first entry included —
/// untouched; when the balance operation itself would have gone through, the
/// verdict is exactly `DuplicateTransaction`.
pub proof fn lemma_duplicate_rejected(cs0: Seq<Client>, ts: Seq<Transaction>, t: Transaction)
    requires
        t.tx_type == TxType::Deposit || t.tx_type == TxType::Withdrawal,
        has_tx(ts, t.tx),
    ensures
        ({
            let (cs2, ts2, r) = spec_apply(cs0, ts, t);
            &&& ts2 == ts
            &&& cs2 == with_account(cs0, t.client)
            &&& r is Err
            &&& (t.amount matches Some(a) && {
                let c = cs2[client_index(cs2, t.client)];
                if t.tx_type == TxType::Deposit {
                    deposit_outcome(c, a).1 is Ok
                } else {
                    withdrawal_outcome(c, a).1 is Ok
                }
            }) ==> r == Err::<(), TixError>(TixError::DuplicateTransaction(t.tx))
        }),
{
}

/// Dispute requires an existing entry: a dispute, resolve or chargeback
/// referencing a transaction id that was never logged is rejected with
/// `TransactionNotFound`; the log is untouched and no balance changes (at
/// most the zeroed account for a new client id appears).
pub proof fn lemma_unknown_tx_rejected(cs0: Seq<Client>, ts: Seq<Transaction>, t: Transaction)
    requires
        t.tx_type == TxType::Dispute || t.tx_type == TxType::Resolve || t.tx_type
            == TxType::Chargeback,
        !has_tx(ts, t.tx),
    ensures
        ({
            let (cs2, ts2, r) = spec_apply(cs0, ts, t);
            &&& r == Err::<(), TixError>(TixError::TransactionNotFound(t.tx))
            &&& ts2 == ts
            &&& cs2 == with_account(cs0, t.client)
        }),
{
}

/// Resolve and chargeback require a disputed entry: on an entry whose
/// dispute flag is off, both are rejected with `NotDisputed`, the log is
/// untouched and no balance changes.
pub proof fn lemma_undisputed_rejected(cs0: Seq<Client>, ts: Seq<Transaction>, t: Transaction)
    requires
        t.tx_type == TxType::Resolve || t.tx_type == TxType::Chargeback,
        has_tx(ts, t.tx),
        !ts[tx_index(ts, t.tx)].is_disputed,
    ensures
        ({
            let (cs2, ts2, r) = spec_apply(cs0, ts, t);
            &&& r == Err::<(), TixError>(TixError::NotDisputed(t.tx))
            &&& ts2 == ts
            &&& cs2 == with_account(cs0, t.client)
        }),
{
}

/// Lock terminality: once an account is locked, every transaction naming its
/// client id is rejected and neither store changes; whenever the transaction
/// gets as far as the balance check — the entry-level checks (missing
/// amount, unknown id, entry not disputed) come first and report their own
/// error — the verdict is exactly `AccountLocked`.
pub proof fn lemma_locked_rejected(cs0: Seq<Client>, ts: Seq<Transaction>, t: Transaction)
    requires
        has_client(cs0, t.client),
        cs0[client_index(cs0, t.client)].locked,
    ensures
        ({
            let (cs2, ts2, r) = spec_apply(cs0, ts, t);
            &&& cs2 == cs0
            &&& ts2 == ts
            &&& r is Err
            &&& (t.tx_type == TxType::Deposit || t.tx_type == TxType::Withdrawal) && t.amount
                is Some ==> r == Err::<(), TixError>(TixError::AccountLocked(t.client))
            &&& t.tx_type == TxType::Dispute && has_tx(ts, t.tx) && ts[tx_index(ts, t.tx)].amount
                is Some ==> r == Err::<(), TixError>(TixError::AccountLocked(t.client))
            &&& (t.tx_type == TxType::Resolve || t.tx_type == TxType::Chargeback) && has_tx(
                ts,
                t.tx,
            ) && ts[tx_index(ts, t.tx)].is_disputed && ts[tx_index(ts, t.tx)].amount is Some ==> r
                == Err::<(), TixError>(TixError::AccountLocked(t.client))
        }),
{
    let i = client_index(cs0, t.client);
    assert(0 <= i < cs0.len() && cs0[i].id == t.client);
}

/// The transaction manager: sole owner of the account store and the
/// transaction log while a stream is processed.
#[derive(Debug)]
pub struct Engine {
    pub clients: Clients,
    pub tx_history: TxHistory,
}

impl Engine {
    /// Both stores are well formed: account ids unique, every balance
    /// invariant holds, and logged transaction ids unique. Established by
    /// `new` and preserved by `add`.
    pub open spec fn wf(self) -> bool {
        &&& ids_unique(self.clients@)
        &&& all_wf(self.clients@)
        &&& tx_ids_unique(self.tx_history@)
    }

    /// An engine with no accounts and an empty log.
    pub fn new() -> (e: Engine)
        ensures
            e.wf(),
            e.clients@ == Seq::<Client>::empty(),
            e.tx_history@ == Seq::<Transaction>::empty(),
    {
        let e = Engine {
            clients: Clients { content: Vec::new() },
            tx_history: TxHistory { content: Vec::new() },
        };
        proof {
            assert(e.clients@ =~= Seq::<Client>::empty());
            assert(e.tx_history@ =~= Seq::<Transaction>::empty());
        }
        e
    }

    /// Apply one transaction: exactly the transition `spec_apply` describes,
    /// and the stores stay well formed whatever the verdict.
    pub fn add(&mut self, tx: &Transaction) -> (r: Result<(), TixError>)
        requires
            old(self).wf(),
        ensures
            final(self).wf(),
            ({
                let (cs, ts, res) = spec_apply(old(self).clients@, old(self).tx_history@, *tx);
                final(self).clients@ == cs && final(self).tx_history@ == ts && r == res
            }),
    {
        let ghost cs0 = self.clients@;
        let ghost ts0 = self.tx_history@;
        let idx: usize;
        match self.clients.get(tx.client) {
            Some(i) => {
                idx = i;
                proof {
                    assert(self.clients@ == with_account(cs0, tx.client));
                }
            },
            None => {
                proof {
                    lemma_push_fresh_client(cs0, tx.client);
                }
                idx = self.clients.new(tx.client);
            },
        }
        proof {
            lemma_client_index_agrees(self.clients@, idx as int);
        }
        let ghost cs = self.clients@;

        match tx.tx_type {
            TxType::Deposit => {
                let amount: u64;
                match tx.amount {
                    Some(a) => {
                        amount = a;
                    },
                    None => {
                        return Err(TixError::InvalidTransaction(tx.tx));
                    },
                }
                let mut c = self.clients.content[idx];
                match c.deposit(amount) {
                    Err(e) => Err(e),
                    Ok(_) => {
                        let entry = Transaction {
                            tx: tx.tx,
                            tx_type: tx.tx_type,
                            client: tx.client,
                            amount: tx.amount,
                            is_disputed: false,
                        };
                        match self.tx_history.add_tx(entry) {
                            Err(e) => Err(e),
                            Ok(_) => {
                                self.clients.content[idx] = c;
                                proof {
                                    assert(entry == logged(*tx));
                                    lemma_update_client(cs, idx as int, c);
                                    lemma_push_fresh_tx(ts0, entry);
                                }
                                Ok(())
                            },
                        }
                    },
                }
            },
            TxType::Withdrawal => {
                let amount: u64;
                match tx.amount {
                    Some(a) => {
                        amount = a;
                    },
                    None => {
                        return Err(TixError::InvalidTransaction(tx.tx));
                    },
                }
                let mut c = self.clients.content[idx];
                match c.withdrawal(amount) {
                    Err(e) => Err(e),
                    Ok(_) => {
                        let entry = Transaction {
                            tx: tx.tx,
                            tx_type: tx.tx_type,
                            client: tx.client,
                            amount: tx.amount,
                            is_disputed: false,
                        };
                        match self.tx_history.add_tx(entry) {
                            Err(e) => Err(e),
                            Ok(_) => {
                                self.clients.content[idx] = c;
                                proof {
                                    assert(entry == logged(*tx));
                                    lemma_update_client(cs, idx as int, c);
                                    lemma_push_fresh_tx(ts0, entry);
                                }
                                Ok(())
                            },
                        }
                    },
                }
            },
            TxType::Dispute => {
                let jdx: usize;
                match self.tx_history.get_tx(tx.tx) {
                    Some(j) => {
                        jdx = j;
                    },
                    None => {
                        return Err(TixError::TransactionNotFound(tx.tx));
                    },
                }
                proof {
                    lemma_tx_index_agrees(ts0, jdx as int);
                }
                let entry = self.tx_history.content[jdx];
                let amount: u64;
                match entry.amount {
                    Some(a) => {
                        amount = a;
                    },
                    None => {
                        return Err(TixError::InvalidTransaction(tx.tx));
                    },
                }
                let mut c = self.clients.content[idx];
                match c.dispute(amount) {
                    Err(e) => Err(e),
                    Ok(_) => {
                        self.clients.content[idx] = c;
                        let e2 = Transaction { is_disputed: true, ..entry };
                        self.tx_history.content[jdx] = e2;
                        proof {
                            lemma_update_client(cs, idx as int, c);
                            lemma_update_tx(ts0, jdx as int, e2);
                        }
                        Ok(())
                    },
                }
            },
            TxType::Resolve => {
                let jdx: usize;
                match self.tx_history.get_tx(tx.tx) {
                    Some(j) => {
                        jdx = j;
                    },
                    None => {
                        return Err(TixError::TransactionNotFound(tx.tx));
                    },
                }
                proof {
                    lemma_tx_index_agrees(ts0, jdx as int);
                }
                let entry = self.tx_history.content[jdx];
                if !entry.is_disputed {
                    return Err(TixError::NotDisputed(tx.tx));
                }
                let amount: u64;
                match entry.amount {
                    Some(a) => {
                        amount = a;
                    },
                    None => {
                        return Err(TixError::InvalidTransaction(tx.tx));
                    },
                }
                let mut c = self.clients.content[idx];
                match c.resolve(amount) {
                    Err(e) => Err(e),
                    Ok(_) => {
                        self.clients.content[idx] = c;
                        let e2 = Transaction { is_disputed: false, ..entry };
                        self.tx_history.content[jdx] = e2;
                        proof {
                            lemma_update_client(cs, idx as int, c);
                            lemma_update_tx(ts0, jdx as int, e2);
                        }
                        Ok(())
                    },
                }
            },
            TxType::Chargeback => {
                let jdx: usize;
                match self.tx_history.get_tx(tx.tx) {
                    Some(j) => {
                        jdx = j;
                    },
                    None => {
                        return Err(TixError::TransactionNotFound(tx.tx));
                    },
                }
                proof {
                    lemma_tx_index_agrees(ts0, jdx as int);
                }
                let entry = self.tx_history.content[jdx];
                if !entry.is_disputed {
                    return Err(TixError::NotDisputed(tx.tx));
                }
                let amount: u64;
                match entry.amount {
                    Some(a) => {
                        amount = a;
                    },
                    None => {
                        return Err(TixError::InvalidTransaction(tx.tx));
                    },
                }
                let mut c = self.clients.content[idx];
                match c.chargeback(amount) {
                    Err(e) => Err(e),
                    Ok(_) => {
                        self.clients.content[idx] = c;
                        let e2 = Transaction { is_disputed: false, ..entry };
                        self.tx_history.content[jdx] = e2;
                        proof {
                            lemma_update_client(cs, idx as int, c);
                            lemma_update_tx(ts0, jdx as int, e2);
                        }
                        Ok(())
                    },
                }
            },
        }
    }

    /// A copy of every account, in creation order.
    pub fn snapshot(&self) -> (r: Vec<Client>)
        ensures
            r@ == self.clients@,
    {
        self.clients.snapshot()
    }
}

} // verus!
