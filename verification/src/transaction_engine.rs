//! The ledger engine: one account per client, each applying the
//! dispute-lifecycle state machine to its own transaction stream.
//!
//! The state of a disputed transaction is not stored explicitly; it is
//! reconstructed, each time a dispute-kind event arrives, from the shape
//! of the prior history entries that reference the same transaction id.

use vstd::prelude::*;
use crate::amount::{Amount, in_amount_range, render_spec};
use crate::transaction::{ClientId, CsvAccount, Transaction, spec_client, spec_tx, is_monetary, spec_amount};

verus! {

/// The mathematical state of one account.
#[verifier::ext_equal]
pub ghost struct AccountView {
    pub client: ClientId,
    pub history: Seq<Transaction>,
    pub available: int,
    pub held: int,
    pub locked: bool,
}

/// The state a fresh account starts in.
pub open spec fn initial_account(client: ClientId) -> AccountView {
    AccountView { client, history: Seq::empty(), available: 0, held: 0, locked: false }
}

/// The history entries that carry or reference tx id `t`, oldest first.
pub open spec fn filtered_history(h: Seq<Transaction>, t: u32) -> Seq<Transaction>
    decreases h.len(),
{
    if h.len() == 0 {
        Seq::empty()
    } else {
        let rest = filtered_history(h.drop_last(), t);
        if spec_tx(h.last()) == t {
            rest.push(h.last())
        } else {
            rest
        }
    }
}

/// A dispute may fire: the tx id matches exactly one entry, a monetary one.
pub open spec fn single_monetary(f: Seq<Transaction>) -> bool {
    f.len() == 1 && is_monetary(f[0])
}

/// A resolve may fire: exactly a monetary entry followed by one dispute.
pub open spec fn open_dispute(f: Seq<Transaction>) -> bool {
    f.len() == 2 && is_monetary(f[0]) && f[1] is Dispute
}

/// A chargeback may fire: a monetary entry then a dispute, as a prefix;
/// trailing entries are tolerated.
pub open spec fn dispute_prefix(f: Seq<Transaction>) -> bool {
    f.len() >= 2 && is_monetary(f[0]) && f[1] is Dispute
}

/// How one transaction changes one account.
///
/// A locked account ignores everything, and does not even record the
/// event.  Otherwise the event is always appended to the history, and
/// the balances move only when the transition may fire and the new
/// balances stay in the representable amount range; every illegal or
/// ambiguous transition is a silent no-op.
pub open spec fn step(a: AccountView, t: Transaction) -> AccountView {
    if a.locked {
        a
    } else {
        let f = filtered_history(a.history, spec_tx(t));
        let amt = if f.len() > 0 {
            spec_amount(f[0])
        } else {
            0
        };
        let b = match t {
            Transaction::Deposit { amount, .. } => {
                if in_amount_range(a.available + amount@) {
                    AccountView { available: a.available + amount@, ..a }
                } else {
                    a
                }
            },
            Transaction::Withdrawal { amount, .. } => {
                if a.available >= amount@ && in_amount_range(a.available - amount@) {
                    AccountView { available: a.available - amount@, ..a }
                } else {
                    a
                }
            },
            Transaction::Dispute { .. } => {
                if single_monetary(f) && in_amount_range(a.available - amt) && in_amount_range(
                    a.held + amt,
                ) {
                    AccountView { available: a.available - amt, held: a.held + amt, ..a }
                } else {
                    a
                }
            },
            Transaction::Resolve { .. } => {
                if open_dispute(f) && in_amount_range(a.available + amt) && in_amount_range(
                    a.held - amt,
                ) {
                    AccountView { available: a.available + amt, held: a.held - amt, ..a }
                } else {
                    a
                }
            },
            Transaction::Chargeback { .. } => {
                if dispute_prefix(f) && in_amount_range(a.held - amt) {
                    AccountView { held: a.held - amt, locked: true, ..a }
                } else {
                    a
                }
            },
        };
        AccountView { history: a.history.push(t), ..b }
    }
}

/// One client's balances, lock flag and applied-transaction history.
pub struct Account {
    client_id: ClientId,
    transactions: Vec<Transaction>,
    available: Amount,
    held: Amount,
    locked: bool,
}

impl View for Account {
    type V = AccountView;

    closed spec fn view(&self) -> AccountView {
        AccountView {
            client: self.client_id,
            history: self.transactions@,
            available: self.available@,
            held: self.held@,
            locked: self.locked,
        }
    }
}

/// What one scan of a history finds about a transaction id.
struct ScanInfo {
    count: usize,
    first_amount: Option<Amount>,
    second_is_dispute: bool,
}

/// Scans `h` for the entries matching tx id `t`: how many there are,
/// the amount of the first when it is monetary, and whether the second
/// is a dispute.
fn scan_history(h: &Vec<Transaction>, t: u32) -> (r: ScanInfo)
    ensures
        ({
            let f = filtered_history(h@, t);
            &&& r.count == f.len()
            &&& (if f.len() >= 1 && is_monetary(f[0]) {
                r.first_amount is Some && (r.first_amount->0)@ == spec_amount(f[0])
            } else {
                r.first_amount is None
            })
            &&& (f.len() >= 2 ==> r.second_is_dispute == (f[1] is Dispute))
        }),
{
    let mut count: usize = 0;
    let mut first_amount: Option<Amount> = None;
    let mut second_is_dispute: bool = false;
    let n = h.len();
    for i in 0..n
        invariant
            n == h@.len(),
            count <= i,
            ({
                let f = filtered_history(h@.take(i as int), t);
                &&& count == f.len()
                &&& (if f.len() >= 1 && is_monetary(f[0]) {
                    first_amount is Some && (first_amount->0)@ == spec_amount(f[0])
                } else {
                    first_amount is None
                })
                &&& (f.len() >= 2 ==> second_is_dispute == (f[1] is Dispute))
            }),
    {
        proof {
            assert(h@.take(i as int + 1).drop_last() =~= h@.take(i as int));
            assert(h@.take(i as int + 1).last() == h@[i as int]);
        }
        let tr = h[i];
        if tr.tx() == t {
            count = count + 1;
            if count == 1 {
                match tr {
                    Transaction::Deposit { amount, .. } => {
                        first_amount = Some(amount);
                    },
                    Transaction::Withdrawal { amount, .. } => {
                        first_amount = Some(amount);
                    },
                    _ => {
                        first_amount = None;
                    },
                }
            } else if count == 2 {
                second_is_dispute = matches!(tr, Transaction::Dispute { .. });
            }
        }
    }
    proof {
        assert(h@.take(n as int) =~= h@);
    }
    ScanInfo { count, first_amount, second_is_dispute }
}

impl Account {
    /// A fresh account for `id`: zero balances, unlocked, empty history.
    pub fn new(id: ClientId) -> (r: Account)
        ensures
            r@ == initial_account(id),
    {
        let r = Account {
            client_id: id,
            transactions: Vec::new(),
            available: Amount::zero(),
            held: Amount::zero(),
            locked: false,
        };
        proof {
            assert(r@ =~= initial_account(id));
        }
        r
    }

    /// Applies one transaction to this account, exactly as `step` says.
    pub fn process(&mut self, transaction: Transaction)
        ensures
            final(self)@ == step(old(self)@, transaction),
    {
        if self.locked {
            return ;
        }
        match transaction {
            Transaction::Deposit { amount, .. } => {
                match self.available.checked_add(amount) {
                    Some(a) => {
                        self.available = a;
                    },
                    None => {},
                }
            },
            Transaction::Withdrawal { amount, .. } => {
                if self.available.ge(&amount) {
                    match self.available.checked_sub(amount) {
                        Some(a) => {
                            self.available = a;
                        },
                        None => {},
                    }
                }
            },
            Transaction::Dispute { tx, .. } => {
                let info = scan_history(&self.transactions, tx);
                if info.count == 1 {
                    if let Some(amt) = info.first_amount {
                        match (self.available.checked_sub(amt), self.held.checked_add(amt)) {
                            (Some(av), Some(hd)) => {
                                self.available = av;
                                self.held = hd;
                            },
                            _ => {},
                        }
                    }
                }
            },
            Transaction::Resolve { tx, .. } => {
                let info = scan_history(&self.transactions, tx);
                if info.count == 2 && info.second_is_dispute {
                    if let Some(amt) = info.first_amount {
                        match (self.available.checked_add(amt), self.held.checked_sub(amt)) {
                            (Some(av), Some(hd)) => {
                                self.available = av;
                                self.held = hd;
                            },
                            _ => {},
                        }
                    }
                }
            },
            Transaction::Chargeback { tx, .. } => {
                let info = scan_history(&self.transactions, tx);
                if info.count >= 2 && info.second_is_dispute {
                    if let Some(amt) = info.first_amount {
                        match self.held.checked_sub(amt) {
                            Some(hd) => {
                                self.held = hd;
                                self.locked = true;
                            },
                            None => {},
                        }
                    }
                }
            },
        }
        self.transactions.push(transaction);
        proof {
            assert(self@ =~= step(old(self)@, transaction));
        }
    }

    /// The snapshot row for this account; `total` is computed as
    /// available + held at snapshot time, not stored.
    pub fn as_csv_account(&self) -> (r: CsvAccount)
        ensures
            r.client == self@.client,
            r.available@ == render_spec(self@.available),
            r.held@ == render_spec(self@.held),
            r.total@ == render_spec(self@.available + self@.held),
            r.locked == self@.locked,
    {
        CsvAccount {
            client: self.client_id,
            available: self.available.render(),
            held: self.held.render(),
            total: self.available.render_sum(&self.held),
            locked: self.locked,
        }
    }
}

/// Client ids are unique across a ledger's accounts.
pub open spec fn distinct_clients(s: Seq<AccountView>) -> bool {
    forall|i: int, j: int| 0 <= i < j < s.len() ==> s[i].client != s[j].client
}

/// Some account in `s` belongs to client `c`.
pub open spec fn has_client(s: Seq<AccountView>, c: ClientId) -> bool {
    exists|i: int| 0 <= i < s.len() && s[i].client == c
}

/// The index of client `c`'s account (meaningful when `has_client`).
pub open spec fn client_index(s: Seq<AccountView>, c: ClientId) -> int {
    choose|i: int| 0 <= i < s.len() && s[i].client == c
}

/// How one transaction changes the whole ledger: it is routed to the
/// account of its client, which is created on first sight.
pub open spec fn engine_step(s: Seq<AccountView>, t: Transaction) -> Seq<AccountView> {
    let c = spec_client(t);
    if has_client(s, c) {
        s.update(client_index(s, c), step(s[client_index(s, c)], t))
    } else {
        s.push(step(initial_account(c), t))
    }
}

/// Owns every account ever seen, in order of first sight.
pub struct TransactionEngine {
    accounts: Vec<Account>,
}

impl View for TransactionEngine {
    type V = Seq<AccountView>;

    closed spec fn view(&self) -> Seq<AccountView> {
        self.accounts@.map_values(|a: Account| a@)
    }
}

/// The index of client `c`'s account among `accounts`, if any.
fn find_account(accounts: &Vec<Account>, c: ClientId) -> (r: Option<usize>)
    ensures
        match r {
            Some(i) => i < accounts@.len() && accounts@[i as int]@.client == c,
            None => forall|j: int|
                0 <= j < accounts@.len() ==> (#[trigger] accounts@[j])@.client != c,
        },
{
    let n = accounts.len();
    for i in 0..n
        invariant
            n == accounts@.len(),
            forall|j: int| 0 <= j < i ==> (#[trigger] accounts@[j])@.client != c,
    {
        if accounts[i].client_id == c {
            return Some(i);
        }
    }
    None
}

impl TransactionEngine {
    /// Client ids are unique across the ledger.
    pub open spec fn wf(&self) -> bool {
        distinct_clients(self@)
    }

    /// An empty ledger.
    pub fn new() -> (r: TransactionEngine)
        ensures
            r@ == Seq::<AccountView>::empty(),
            r.wf(),
    {
        let r = TransactionEngine { accounts: Vec::new() };
        proof {
            assert(r@ =~= Seq::<AccountView>::empty());
        }
        r
    }

    /// Routes `transaction` to the account for its client, creating it
    /// on first sight; this call never fails.
    pub fn process(&mut self, transaction: Transaction)
        requires
            old(self).wf(),
        ensures
            final(self).wf(),
            final(self)@ == engine_step(old(self)@, transaction),
    {
        let c = transaction.client();
        match find_account(&self.accounts, c) {
            Some(i) => {
                let acc = &mut self.accounts[i];
                acc.process(transaction);
                proof {
                    assert(old(self)@[i as int].client == c);
                    assert(has_client(old(self)@, c));
                    let k = client_index(old(self)@, c);
                    assert(0 <= k < old(self)@.len() && old(self)@[k].client == c);
                    assert(k == i as int);
                    assert(self@ =~= engine_step(old(self)@, transaction));
                }
            },
            None => {
                let mut acc = Account::new(c);
                acc.process(transaction);
                self.accounts.push(acc);
                proof {
                    assert(forall|j: int|
                        0 <= j < old(self)@.len() ==> #[trigger] old(self)@[j].client != c);
                    assert(!has_client(old(self)@, c));
                    assert(self@ =~= engine_step(old(self)@, transaction));
                }
            },
        }
    }

    /// A snapshot row for every account ever created, in order of
    /// first sight; every total is available + held at snapshot time.
    pub fn accounts(&self) -> (r: Vec<CsvAccount>)
        ensures
            r@.len() == self@.len(),
            forall|i: int|
                0 <= i < self@.len() ==> {
                    let a = self@[i];
                    let row = #[trigger] r@[i];
                    &&& row.client == a.client
                    &&& row.available@ == render_spec(a.available)
                    &&& row.held@ == render_spec(a.held)
                    &&& row.total@ == render_spec(a.available + a.held)
                    &&& row.locked == a.locked
                },
    {
        let mut r: Vec<CsvAccount> = Vec::new();
        let n = self.accounts.len();
        for i in 0..n
            invariant
                n == self.accounts@.len(),
                r@.len() == i,
                forall|j: int|
                    0 <= j < i ==> {
                        let a = self@[j];
                        let row = #[trigger] r@[j];
                        &&& row.client == a.client
                        &&& row.available@ == render_spec(a.available)
                        &&& row.held@ == render_spec(a.held)
                        &&& row.total@ == render_spec(a.available + a.held)
                        &&& row.locked == a.locked
                    },
        {
            let row = self.accounts[i].as_csv_account();
            r.push(row);
        }
        r
    }
}

} // verus!
