//! Transactions: the transient input records, and the log of every
//! successfully applied deposit and withdrawal, kept for later disputes.

use vstd::prelude::*;

use crate::error::TixError;

verus! {

/// The five transaction kinds the engine understands.
#[derive(Debug, Clone, Copy, PartialEq, Eq, Structural)]
pub enum TxType {
    Deposit,
    Withdrawal,
    Dispute,
    Resolve,
    Chargeback,
}

/// One incoming transaction, and also the shape of a logged entry.
///
/// `amount` is a fixed-point value (1/10000 units); it is present for
/// deposits and withdrawals and absent for the three dispute kinds, which
/// operate on the amount stored in the referenced entry. `is_disputed` is
/// meaningful only on logged entries; it starts false and is the only field
/// a logged entry ever changes.
#[derive(Debug, Clone, Copy)]
pub struct Transaction {
    pub tx: u32,
    pub tx_type: TxType,
    pub client: u16,
    pub amount: Option<u64>,
    pub is_disputed: bool,
}

/// No two logged entries share a transaction id.
pub open spec fn tx_ids_unique(s: Seq<Transaction>) -> bool {
    forall|i: int, j: int| 0 <= i < j < s.len() ==> s[i].tx != s[j].tx
}

/// Some entry in `s` carries the transaction id `id`.
pub open spec fn has_tx(s: Seq<Transaction>, id: u32) -> bool {
    exists|i: int| 0 <= i < s.len() && s[i].tx == id
}

/// The position of the entry with id `id` (meaningful when `has_tx` holds
/// and ids are unique).
pub open spec fn tx_index(s: Seq<Transaction>, id: u32) -> int {
    choose|i: int| 0 <= i < s.len() && s[i].tx == id
}

/// The history of every deposit and withdrawal that was applied.
#[derive(Debug)]
pub struct TxHistory {
    pub content: Vec<Transaction>,
}

impl View for TxHistory {
    type V = Seq<Transaction>;

    open spec fn view(&self) -> Seq<Transaction> {
        self.content@
    }
}

impl TxHistory {
    /// Find the logged entry with id `tx`, as an index into the log.
    pub fn get_tx(&self, tx: u32) -> (r: Option<usize>)
        ensures
            match r {
                Some(i) => i < self@.len() && self@[i as int].tx == tx,
                None => !has_tx(self@, tx),
            },
            r is Some <==> has_tx(self@, tx),
    {
        let mut i: usize = 0;
        while i < self.content.len()
            invariant
                i <= self@.len(),
                forall|k: int| 0 <= k < i ==> self@[k].tx != tx,
            decreases self@.len() - i,
        {
            if self.content[i].tx == tx {
                return Some(i);
            }
            i = i + 1;
        }
        None
    }

    /// Append `t` to the log, unless an entry with the same transaction id
    /// is already there; a duplicate leaves the log untouched.
    pub fn add_tx(&mut self, t: Transaction) -> (r: Result<(), TixError>)
        ensures
            match r {
                Ok(()) => !has_tx(old(self)@, t.tx) && final(self)@ == old(self)@.push(t),
                Err(e) => e == TixError::DuplicateTransaction(t.tx) && has_tx(old(self)@, t.tx)
                    && final(self)@ == old(self)@,
            },
    {
        match self.get_tx(t.tx) {
            Some(_) => Err(TixError::DuplicateTransaction(t.tx)),
            None => {
                self.content.push(t);
                Ok(())
            },
        }
    }
}

} // verus!
