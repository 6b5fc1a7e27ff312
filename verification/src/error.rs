//! The error taxonomy: every way a single transaction can be rejected.
//!
//! A rejection is always local to one transaction; the caller reports it and
//! goes on with the rest of the stream.

use vstd::prelude::*;

verus! {

/// Why one transaction was rejected. Each variant carries the transaction id
/// or the client id it complains about.
#[derive(Debug, Clone, Copy, PartialEq, Eq, Structural)]
pub enum TixError {
    /// The transaction is malformed: a deposit or withdrawal without an
    /// amount, or a dispute referencing a logged entry that has none.
    InvalidTransaction(u32),
    /// A deposit or withdrawal re-used the transaction id of an entry
    /// already in the log.
    DuplicateTransaction(u32),
    /// A dispute, resolve or chargeback referenced a transaction id that was
    /// never logged.
    TransactionNotFound(u32),
    /// A resolve or chargeback referenced an entry that is not currently
    /// disputed.
    NotDisputed(u32),
    /// The client's account was locked by an earlier chargeback.
    AccountLocked(u16),
    /// A withdrawal or dispute asked for more than the available funds.
    InsufficientFunds(u16),
    /// A resolve or chargeback asked for more than the held funds.
    InsufficientHeldFunds(u16),
    /// Applying the amount would push a balance past the largest
    /// representable fixed-point value.
    BalanceOverflow(u16),
}

} // verus!
