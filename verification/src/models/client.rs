//! Client accounts: the balance state for one client, and the store that
//! owns every account in creation order.

use vstd::prelude::*;

use crate::error::TixError;

verus! {

/// Balance state for one client. Amounts are fixed-point: one unit is
/// 1/10000 of the currency.
#[derive(Debug, Clone, Copy, PartialEq, Eq, Structural)]
pub struct Client {
    pub id: u16,
    /// Funds usable for withdrawal or dispute.
    pub available: u64,
    /// Funds frozen by an active dispute.
    pub held: u64,
    /// All funds of the account; always `available + held`.
    pub total: u64,
    /// True once a chargeback has occurred; no further transaction touches
    /// the account.
    pub locked: bool,
}

/// A client account with zeroed balances, as created on first sight of an
/// unknown client id.
pub open spec fn zero_client(id: u16) -> Client {
    Client { id, available: 0, held: 0, total: 0, locked: false }
}

/// What a deposit of `amount` does to `c`: the new account state and the
/// verdict. On any error the account is unchanged.
pub open spec fn deposit_outcome(c: Client, amount: u64) -> (Client, Result<(), TixError>) {
    if c.locked {
        (c, Err(TixError::AccountLocked(c.id)))
    } else if c.total + amount > u64::MAX {
        (c, Err(TixError::BalanceOverflow(c.id)))
    } else {
        (
            Client {
                available: (c.available + amount) as u64,
                total: (c.total + amount) as u64,
                ..c
            },
            Ok(()),
        )
    }
}

/// What a withdrawal of `amount` does to `c`.
pub open spec fn withdrawal_outcome(c: Client, amount: u64) -> (Client, Result<(), TixError>) {
    if c.locked {
        (c, Err(TixError::AccountLocked(c.id)))
    } else if c.available < amount || c.total < amount {
        (c, Err(TixError::InsufficientFunds(c.id)))
    } else {
        (
            Client {
                available: (c.available - amount) as u64,
                total: (c.total - amount) as u64,
                ..c
            },
            Ok(()),
        )
    }
}

/// What disputing an entry of `amount` does to `c`: the amount moves from
/// available to held.
pub open spec fn dispute_outcome(c: Client, amount: u64) -> (Client, Result<(), TixError>) {
    if c.locked {
        (c, Err(TixError::AccountLocked(c.id)))
    } else if c.available < amount {
        (c, Err(TixError::InsufficientFunds(c.id)))
    } else {
        (
            Client {
                available: (c.available - amount) as u64,
                held: (c.held + amount) as u64,
                ..c
            },
            Ok(()),
        )
    }
}

/// What resolving a disputed entry of `amount` does to `c`: the amount moves
/// back from held to available.
pub open spec fn resolve_outcome(c: Client, amount: u64) -> (Client, Result<(), TixError>) {
    if c.locked {
        (c, Err(TixError::AccountLocked(c.id)))
    } else if c.held < amount {
        (c, Err(TixError::InsufficientHeldFunds(c.id)))
    } else {
        (
            Client {
                held: (c.held - amount) as u64,
                available: (c.available + amount) as u64,
                ..c
            },
            Ok(()),
        )
    }
}

/// What charging back a disputed entry of `amount` does to `c`: the held
/// amount leaves the account and the account is locked for good.
pub open spec fn chargeback_outcome(c: Client, amount: u64) -> (Client, Result<(), TixError>) {
    if c.locked {
        (c, Err(TixError::AccountLocked(c.id)))
    } else if c.held < amount {
        (c, Err(TixError::InsufficientHeldFunds(c.id)))
    } else {
        (
            Client {
                held: (c.held - amount) as u64,
                total: (c.total - amount) as u64,
                locked: true,
                ..c
            },
            Ok(()),
        )
    }
}

impl Client {
    /// The balance invariant: the total is exactly the available plus the
    /// held funds.
    pub open spec fn wf(self) -> bool {
        self.available + self.held == self.total
    }

    /// Increase the available and total funds by `amount`.
    pub fn deposit(&mut self, amount: u64) -> (r: Result<(), TixError>)
        requires
            old(self).wf(),
        ensures
            (*final(self), r) == deposit_outcome(*old(self), amount),
            final(self).wf(),
    {
        if self.locked {
            return Err(TixError::AccountLocked(self.id));
        }
        if amount > u64::MAX - self.total {
            return Err(TixError::BalanceOverflow(self.id));
        }
        self.available = self.available + amount;
        self.total = self.total + amount;
        Ok(())
    }

    /// Decrease the available and total funds by `amount`.
    pub fn withdrawal(&mut self, amount: u64) -> (r: Result<(), TixError>)
        requires
            old(self).wf(),
        ensures
            (*final(self), r) == withdrawal_outcome(*old(self), amount),
            final(self).wf(),
    {
        if self.locked {
            return Err(TixError::AccountLocked(self.id));
        }
        if self.available < amount || self.total < amount {
            return Err(TixError::InsufficientFunds(self.id));
        }
        self.available = self.available - amount;
        self.total = self.total - amount;
        Ok(())
    }

    /// Move `amount` from the available to the held funds.
    pub fn dispute(&mut self, amount: u64) -> (r: Result<(), TixError>)
        requires
            old(self).wf(),
        ensures
            (*final(self), r) == dispute_outcome(*old(self), amount),
            final(self).wf(),
    {
        if self.locked {
            return Err(TixError::AccountLocked(self.id));
        }
        if self.available < amount {
            return Err(TixError::InsufficientFunds(self.id));
        }
        self.available = self.available - amount;
        self.held = self.held + amount;
        Ok(())
    }

    /// Move `amount` back from the held to the available funds.
    pub fn resolve(&mut self, amount: u64) -> (r: Result<(), TixError>)
        requires
            old(self).wf(),
        ensures
            (*final(self), r) == resolve_outcome(*old(self), amount),
            final(self).wf(),
    {
        if self.locked {
            return Err(TixError::AccountLocked(self.id));
        }
        if self.held < amount {
            return Err(TixError::InsufficientHeldFunds(self.id));
        }
        self.held = self.held - amount;
        self.available = self.available + amount;
        Ok(())
    }

    /// Remove `amount` from the held and total funds and lock the account.
    pub fn chargeback(&mut self, amount: u64) -> (r: Result<(), TixError>)
        requires
            old(self).wf(),
        ensures
            (*final(self), r) == chargeback_outcome(*old(self), amount),
            final(self).wf(),
    {
        if self.locked {
            return Err(TixError::AccountLocked(self.id));
        }
        if self.held < amount {
            return Err(TixError::InsufficientHeldFunds(self.id));
        }
        self.held = self.held - amount;
        self.total = self.total - amount;
        self.locked = true;
        Ok(())
    }
}

/// No two accounts share a client id.
pub open spec fn ids_unique(s: Seq<Client>) -> bool {
    forall|i: int, j: int| 0 <= i < j < s.len() ==> s[i].id != s[j].id
}

/// Some account in `s` belongs to `id`.
pub open spec fn has_client(s: Seq<Client>, id: u16) -> bool {
    exists|i: int| 0 <= i < s.len() && s[i].id == id
}

/// The position of the account for `id` (meaningful when `has_client` holds
/// and ids are unique).
pub open spec fn client_index(s: Seq<Client>, id: u16) -> int {
    choose|i: int| 0 <= i < s.len() && s[i].id == id
}

/// Every account in `s` satisfies the balance invariant.
pub open spec fn all_wf(s: Seq<Client>) -> bool {
    forall|i: int| 0 <= i < s.len() ==> s[i].wf()
}

/// The store of every account seen so far, in the order the accounts were
/// first created.
#[derive(Debug)]
pub struct Clients {
    pub content: Vec<Client>,
}

impl View for Clients {
    type V = Seq<Client>;

    open spec fn view(&self) -> Seq<Client> {
        self.content@
    }
}

impl Clients {
    /// Find the account for `id`, as an index into the store.
    pub fn get(&self, id: u16) -> (r: Option<usize>)
        ensures
            match r {
                Some(i) => i < self@.len() && self@[i as int].id == id,
                None => !has_client(self@, id),
            },
            r is Some <==> has_client(self@, id),
    {
        let mut i: usize = 0;
        while i < self.content.len()
            invariant
                i <= self@.len(),
                forall|k: int| 0 <= k < i ==> self@[k].id != id,
            decreases self@.len() - i,
        {
            if self.content[i].id == id {
                return Some(i);
            }
            i = i + 1;
        }
        None
    }

    /// Create an account for `id` with zeroed balances, append it to the
    /// store, and return its index.
    pub fn new(&mut self, id: u16) -> (i: usize)
        ensures
            final(self)@ == old(self)@.push(zero_client(id)),
            i == old(self)@.len(),
    {
        let i = self.content.len();
        self.content.push(Client { id, available: 0, held: 0, total: 0, locked: false });
        i
    }

    /// A copy of every account, in creation order: the end-of-stream report.
    pub fn snapshot(&self) -> (r: Vec<Client>)
        ensures
            r@ == self@,
    {
        let mut r: Vec<Client> = Vec::new();
        let mut i: usize = 0;
        while i < self.content.len()
            invariant
                i <= self@.len(),
                r@ == self@.subrange(0, i as int),
            decreases self@.len() - i,
        {
            r.push(self.content[i]);
            i = i + 1;
        }
        proof {
            assert(r@ =~= self@);
        }
        r
    }
}

/// Reading the store twice without a mutation in between gives the same
/// report: the snapshot is a pure function of the store.
pub proof fn lemma_snapshot_idempotent(c: Clients, a: Seq<Client>, b: Seq<Client>)
    requires
        a == c@,
        b == c@,
    ensures
        a == b,
{
}

} // verus!
