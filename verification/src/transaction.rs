//! The ledger's event model: one immutable record per transaction,
//! tagged by kind, plus the snapshot row handed to the output sink.

use vstd::prelude::*;
use crate::amount::Amount;

verus! {

/// Identifies a client; stable, never reused across accounts.
pub type ClientId = u16;

/// The kind tag of a ledger event.
#[derive(Clone, Copy, Debug, PartialEq, Eq, Structural)]
pub enum TransactionType {
    Deposit,
    Withdrawal,
    Dispute,
    Resolve,
    Chargeback,
}

/// One immutable ledger event.  Monetary kinds carry an amount; the
/// dispute-lifecycle kinds only reference an earlier transaction id.
#[derive(Clone, Copy, Debug)]
pub enum Transaction {
    Deposit { client: ClientId, tx: u32, amount: Amount },
    Withdrawal { client: ClientId, tx: u32, amount: Amount },
    Dispute { client: ClientId, tx: u32 },
    Resolve { client: ClientId, tx: u32 },
    Chargeback { client: ClientId, tx: u32 },
}

/// The client a transaction belongs to.
pub open spec fn spec_client(t: Transaction) -> ClientId {
    match t {
        Transaction::Deposit { client, .. } => client,
        Transaction::Withdrawal { client, .. } => client,
        Transaction::Dispute { client, .. } => client,
        Transaction::Resolve { client, .. } => client,
        Transaction::Chargeback { client, .. } => client,
    }
}

/// The transaction id a transaction carries or references.
pub open spec fn spec_tx(t: Transaction) -> u32 {
    match t {
        Transaction::Deposit { tx, .. } => tx,
        Transaction::Withdrawal { tx, .. } => tx,
        Transaction::Dispute { tx, .. } => tx,
        Transaction::Resolve { tx, .. } => tx,
        Transaction::Chargeback { tx, .. } => tx,
    }
}

/// True of the monetary kinds, the only ones that can be disputed.
pub open spec fn is_monetary(t: Transaction) -> bool {
    t is Deposit || t is Withdrawal
}

/// The mantissa of a monetary transaction's amount (zero otherwise).
pub open spec fn spec_amount(t: Transaction) -> int {
    match t {
        Transaction::Deposit { amount, .. } => amount@,
        Transaction::Withdrawal { amount, .. } => amount@,
        _ => 0,
    }
}

impl Transaction {
    /// The client a transaction belongs to.
    pub fn client(&self) -> (r: ClientId)
        ensures
            r == spec_client(*self),
    {
        match self {
            Transaction::Deposit { client, .. } => *client,
            Transaction::Withdrawal { client, .. } => *client,
            Transaction::Dispute { client, .. } => *client,
            Transaction::Resolve { client, .. } => *client,
            Transaction::Chargeback { client, .. } => *client,
        }
    }

    /// The transaction id a transaction carries or references.
    pub fn tx(&self) -> (r: u32)
        ensures
            r == spec_tx(*self),
    {
        match self {
            Transaction::Deposit { tx, .. } => *tx,
            Transaction::Withdrawal { tx, .. } => *tx,
            Transaction::Dispute { tx, .. } => *tx,
            Transaction::Resolve { tx, .. } => *tx,
            Transaction::Chargeback { tx, .. } => *tx,
        }
    }
}

/// One row of the final snapshot: the five fields the output sink
/// consumes, monetary values already written with four fractional digits.
#[derive(Clone, Debug, PartialEq)]
pub struct CsvAccount {
    pub client: ClientId,
    pub available: String,
    pub held: String,
    pub total: String,
    pub locked: bool,
}

} // verus!
