use vstd::prelude::*;
use std::collections::HashMap;
use crate::transaction::Transaction;

verus! {

broadcast use vstd::std_specs::hash::group_hash_axioms;

/// A light record of a transaction previously processed by a client, kept so
/// that it can later be disputed.
#[derive(Clone, Copy, Debug, PartialEq, Eq, Structural)]
pub struct PreviousTransaction {
    pub amount: i64,
    pub is_disputed: bool,
}

impl PreviousTransaction {
    /// A freshly processed transaction is never under dispute.
    pub fn new(amount: i64) -> (r: PreviousTransaction)
        ensures
            r == (PreviousTransaction { amount, is_disputed: false }),
    {
        PreviousTransaction { amount, is_disputed: false }
    }
}

/// Why a transaction was rejected by a client.
#[derive(Clone, Copy, Debug, PartialEq, Eq, Structural)]
pub enum TransactionError {
    /// A deposit or withdrawal of a negative amount.
    InvalidAmountError { amount: i64 },
    /// A dispute of a transaction that is unknown or already disputed.
    PartnerDisputeError { tx_id: u32 },
    /// A resolve of a transaction that is unknown or not disputed.
    PartnerResolveError { tx_id: u32 },
    /// A chargeback of a transaction that is unknown or not disputed.
    PartnerChargebackError { tx_id: u32 },
}

/// The mathematical state of a client: balances as unbounded integers.
///
/// Two rules are fixed here. A dispute freezes funds: the disputed amount
/// moves from `available` to `held` and `total` stays put. A transaction id
/// that recurs overwrites the earlier record, so later disputes refer to the
/// latest amount recorded under that id.
pub ghost struct ClientState {
    pub id: u16,
    pub entries: Map<u32, PreviousTransaction>,
    pub available: int,
    pub held: int,
    pub total: int,
    pub locked: bool,
}

pub open spec fn fits_i64(v: int) -> bool {
    i64::MIN <= v <= i64::MAX
}

impl ClientState {
    /// A client seen for the first time: no history, zero balances, unlocked.
    pub open spec fn fresh(id: u16) -> ClientState {
        ClientState {
            id,
            entries: Map::empty(),
            available: 0,
            held: 0,
            total: 0,
            locked: false,
        }
    }

    /// The ledger's central invariant: total funds are available plus held.
    pub open spec fn balanced(self) -> bool {
        self.total == self.available + self.held
    }

    /// Every balance can be stored in an `i64`.
    pub open spec fn fits(self) -> bool {
        fits_i64(self.available) && fits_i64(self.held) && fits_i64(self.total)
    }

    pub open spec fn after_deposit(self, tx_id: u32, amount: i64) -> ClientState {
        ClientState {
            entries: self.entries.insert(tx_id, PreviousTransaction { amount, is_disputed: false }),
            available: self.available + amount,
            total: self.total + amount,
            ..self
        }
    }

    pub open spec fn after_withdraw(self, tx_id: u32, amount: i64) -> ClientState {
        ClientState {
            entries: self.entries.insert(tx_id, PreviousTransaction { amount, is_disputed: false }),
            available: self.available - amount,
            total: self.total - amount,
            ..self
        }
    }

    /// `tx_id` names a recorded transaction that is not under dispute.
    pub open spec fn can_dispute(self, tx_id: u32) -> bool {
        self.entries.contains_key(tx_id) && !self.entries[tx_id].is_disputed
    }

    /// `tx_id` names a recorded transaction that is under dispute.
    pub open spec fn under_dispute(self, tx_id: u32) -> bool {
        self.entries.contains_key(tx_id) && self.entries[tx_id].is_disputed
    }

    /// Dispute freezes the funds: they move from available to held.
    pub open spec fn after_dispute(self, tx_id: u32) -> ClientState {
        let e = self.entries[tx_id];
        ClientState {
            entries: self.entries.insert(tx_id, PreviousTransaction { is_disputed: true, ..e }),
            available: self.available - e.amount,
            held: self.held + e.amount,
            ..self
        }
    }

    /// Resolve releases frozen funds: they move from held back to available.
    pub open spec fn after_resolve(self, tx_id: u32) -> ClientState {
        let e = self.entries[tx_id];
        ClientState {
            entries: self.entries.insert(tx_id, PreviousTransaction { is_disputed: false, ..e }),
            available: self.available + e.amount,
            held: self.held - e.amount,
            ..self
        }
    }

    /// Chargeback removes frozen funds for good and locks the client.
    pub open spec fn after_chargeback(self, tx_id: u32) -> ClientState {
        let e = self.entries[tx_id];
        ClientState {
            held: self.held - e.amount,
            total: self.total - e.amount,
            locked: true,
            ..self
        }
    }

    /// The state after processing `tx`; a locked client ignores everything.
    pub open spec fn step(self, tx: Transaction) -> ClientState {
        if self.locked {
            self
        } else {
            match tx {
                Transaction::Deposit { tx_id, amount } => {
                    if amount < 0 { self } else { self.after_deposit(tx_id, amount) }
                },
                Transaction::Withdraw { tx_id, amount } => {
                    if amount < 0 { self } else { self.after_withdraw(tx_id, amount) }
                },
                Transaction::Dispute { tx_id } => {
                    if self.can_dispute(tx_id) { self.after_dispute(tx_id) } else { self }
                },
                Transaction::Resolve { tx_id } => {
                    if self.under_dispute(tx_id) { self.after_resolve(tx_id) } else { self }
                },
                Transaction::Chargeback { tx_id } => {
                    if self.under_dispute(tx_id) { self.after_chargeback(tx_id) } else { self }
                },
            }
        }
    }

    /// What processing `tx` reports; a locked client reports success.
    pub open spec fn outcome(self, tx: Transaction) -> Result<(), TransactionError> {
        if self.locked {
            Ok(())
        } else {
            match tx {
                Transaction::Deposit { amount, .. } | Transaction::Withdraw { amount, .. } => {
                    if amount < 0 { Err(TransactionError::InvalidAmountError { amount }) } else { Ok(()) }
                },
                Transaction::Dispute { tx_id } => {
                    if self.can_dispute(tx_id) { Ok(()) } else { Err(TransactionError::PartnerDisputeError { tx_id }) }
                },
                Transaction::Resolve { tx_id } => {
                    if self.under_dispute(tx_id) { Ok(()) } else { Err(TransactionError::PartnerResolveError { tx_id }) }
                },
                Transaction::Chargeback { tx_id } => {
                    if self.under_dispute(tx_id) { Ok(()) } else { Err(TransactionError::PartnerChargebackError { tx_id }) }
                },
            }
        }
    }
}

/// A client who can access and manipulate their funds.
pub struct Client {
    id: u16,
    transactions: HashMap<u32, PreviousTransaction>,
    available: i64,
    held: i64,
    total_funds: i64,
    is_locked: bool,
}

impl View for Client {
    type V = ClientState;

    closed spec fn view(&self) -> ClientState {
        ClientState {
            id: self.id,
            entries: self.transactions@,
            available: self.available as int,
            held: self.held as int,
            total: self.total_funds as int,
            locked: self.is_locked,
        }
    }
}

impl Client {
    /// Creates a client with no history, zero balances, unlocked.
    pub fn new(id: u16) -> (r: Client)
        ensures
            r@ == ClientState::fresh(id),
    {
        Client {
            id,
            transactions: HashMap::new(),
            is_locked: false,
            available: 0,
            held: 0,
            total_funds: 0,
        }
    }

    /// Handles a deposit: credits `amount` to available and total funds.
    pub fn deposit(&mut self, tx_id: u32, amount: i64) -> (r: Result<(), TransactionError>)
        requires
            amount >= 0 ==> old(self)@.after_deposit(tx_id, amount).fits(),
        ensures
            amount < 0 ==> r == Err::<(), TransactionError>(TransactionError::InvalidAmountError { amount })
                && final(self)@ == old(self)@,
            amount >= 0 ==> r == Ok::<(), TransactionError>(())
                && final(self)@ == old(self)@.after_deposit(tx_id, amount),
    {
        if amount < 0 {
            return Err(TransactionError::InvalidAmountError { amount });
        }
        self.available = self.available + amount;
        self.total_funds = self.total_funds + amount;
        self.transactions.insert(tx_id, PreviousTransaction::new(amount));
        Ok(())
    }

    /// Handles a withdrawal: debits `amount` from available and total funds.
    /// The balance may go negative: overdraft is permitted.
    pub fn withdraw(&mut self, tx_id: u32, amount: i64) -> (r: Result<(), TransactionError>)
        requires
            amount >= 0 ==> old(self)@.after_withdraw(tx_id, amount).fits(),
        ensures
            amount < 0 ==> r == Err::<(), TransactionError>(TransactionError::InvalidAmountError { amount })
                && final(self)@ == old(self)@,
            amount >= 0 ==> r == Ok::<(), TransactionError>(())
                && final(self)@ == old(self)@.after_withdraw(tx_id, amount),
    {
        if amount < 0 {
            return Err(TransactionError::InvalidAmountError { amount });
        }
        self.available = self.available - amount;
        self.total_funds = self.total_funds - amount;
        // a withdrawal is recorded with its (non-negative) size
        self.transactions.insert(tx_id, PreviousTransaction::new(amount));
        Ok(())
    }

    /// Disputes a previous transaction, freezing its amount.
    pub fn dispute(&mut self, tx_id: u32) -> (r: Result<(), TransactionError>)
        requires
            old(self)@.can_dispute(tx_id) ==> old(self)@.after_dispute(tx_id).fits(),
        ensures
            old(self)@.can_dispute(tx_id) ==> r == Ok::<(), TransactionError>(())
                && final(self)@ == old(self)@.after_dispute(tx_id),
            !old(self)@.can_dispute(tx_id) ==> r == Err::<(), TransactionError>(TransactionError::PartnerDisputeError { tx_id })
                && final(self)@ == old(self)@,
    {
        match self.transactions.get(&tx_id) {
            Some(found) => {
                let prev: PreviousTransaction = *found;
                if prev.is_disputed {
                    return Err(TransactionError::PartnerDisputeError { tx_id });
                }
                self.transactions.insert(tx_id, PreviousTransaction { amount: prev.amount, is_disputed: true });
                self.available = self.available - prev.amount;
                self.held = self.held + prev.amount;
                // total funds remain constant
                Ok(())
            },
            None => Err(TransactionError::PartnerDisputeError { tx_id }),
        }
    }

    /// Resolves a disputed transaction, releasing its amount.
    pub fn resolve_dispute(&mut self, tx_id: u32) -> (r: Result<(), TransactionError>)
        requires
            old(self)@.under_dispute(tx_id) ==> old(self)@.after_resolve(tx_id).fits(),
        ensures
            old(self)@.under_dispute(tx_id) ==> r == Ok::<(), TransactionError>(())
                && final(self)@ == old(self)@.after_resolve(tx_id),
            !old(self)@.under_dispute(tx_id) ==> r == Err::<(), TransactionError>(TransactionError::PartnerResolveError { tx_id })
                && final(self)@ == old(self)@,
    {
        match self.transactions.get(&tx_id) {
            Some(found) => {
                let prev: PreviousTransaction = *found;
                if !prev.is_disputed {
                    return Err(TransactionError::PartnerResolveError { tx_id });
                }
                self.transactions.insert(tx_id, PreviousTransaction { amount: prev.amount, is_disputed: false });
                self.available = self.available + prev.amount;
                self.held = self.held - prev.amount;
                // total funds remain constant
                Ok(())
            },
            None => Err(TransactionError::PartnerResolveError { tx_id }),
        }
    }

    /// Charges back a disputed transaction: its amount leaves the client for
    /// good and the client is locked.
    pub fn chargeback(&mut self, tx_id: u32) -> (r: Result<(), TransactionError>)
        requires
            old(self)@.under_dispute(tx_id) ==> old(self)@.after_chargeback(tx_id).fits(),
        ensures
            old(self)@.under_dispute(tx_id) ==> r == Ok::<(), TransactionError>(())
                && final(self)@ == old(self)@.after_chargeback(tx_id),
            !old(self)@.under_dispute(tx_id) ==> r == Err::<(), TransactionError>(TransactionError::PartnerChargebackError { tx_id })
                && final(self)@ == old(self)@,
    {
        match self.transactions.get(&tx_id) {
            Some(found) => {
                let prev: PreviousTransaction = *found;
                if !prev.is_disputed {
                    return Err(TransactionError::PartnerChargebackError { tx_id });
                }
                self.is_locked = true;
                self.held = self.held - prev.amount;
                self.total_funds = self.total_funds - prev.amount;
                Ok(())
            },
            None => Err(TransactionError::PartnerChargebackError { tx_id }),
        }
    }

    /// Updates the client by `tx` unless it is locked; a locked client
    /// ignores the transaction and reports success.
    pub fn process_transaction(&mut self, tx: Transaction) -> (r: Result<(), TransactionError>)
        requires
            old(self)@.step(tx).fits(),
        ensures
            final(self)@ == old(self)@.step(tx),
            r == old(self)@.outcome(tx),
            old(self)@.balanced() ==> final(self)@.balanced(),
    {
        if !self.is_locked {
            match tx {
                Transaction::Deposit { tx_id, amount } => self.deposit(tx_id, amount),
                Transaction::Withdraw { tx_id, amount } => self.withdraw(tx_id, amount),
                Transaction::Dispute { tx_id } => self.dispute(tx_id),
                Transaction::Resolve { tx_id } => self.resolve_dispute(tx_id),
                Transaction::Chargeback { tx_id } => self.chargeback(tx_id),
            }
        } else {
            Ok(())
        }
    }

    /// Whether processing `tx` keeps every balance within `i64`, which
    /// `process_transaction` requires.
    pub fn can_process(&self, tx: &Transaction) -> (r: bool)
        ensures
            r == self@.step(*tx).fits(),
    {
        if self.is_locked {
            return true;
        }
        let available = self.available as i128;
        let held = self.held as i128;
        let total = self.total_funds as i128;
        let (na, nh, nt): (i128, i128, i128) = match *tx {
            Transaction::Deposit { amount, .. } => {
                if amount < 0 { (available, held, total) } else { (available + amount as i128, held, total + amount as i128) }
            },
            Transaction::Withdraw { amount, .. } => {
                if amount < 0 { (available, held, total) } else { (available - amount as i128, held, total - amount as i128) }
            },
            Transaction::Dispute { tx_id } => match self.transactions.get(&tx_id) {
                Some(e) => {
                    if e.is_disputed { (available, held, total) } else { (available - e.amount as i128, held + e.amount as i128, total) }
                },
                None => (available, held, total),
            },
            Transaction::Resolve { tx_id } => match self.transactions.get(&tx_id) {
                Some(e) => {
                    if !e.is_disputed { (available, held, total) } else { (available + e.amount as i128, held - e.amount as i128, total) }
                },
                None => (available, held, total),
            },
            Transaction::Chargeback { tx_id } => match self.transactions.get(&tx_id) {
                Some(e) => {
                    if !e.is_disputed { (available, held, total) } else { (available, held - e.amount as i128, total - e.amount as i128) }
                },
                None => (available, held, total),
            },
        };
        i64::MIN as i128 <= na && na <= i64::MAX as i128
            && i64::MIN as i128 <= nh && nh <= i64::MAX as i128
            && i64::MIN as i128 <= nt && nt <= i64::MAX as i128
    }

    /// Locks the client: from now on it ignores every transaction.
    pub fn lock(&mut self)
        ensures
            final(self)@ == (ClientState { locked: true, ..old(self)@ }),
    {
        self.is_locked = true;
    }

    pub fn id(&self) -> (r: u16)
        ensures
            r == self@.id,
    {
        self.id
    }

    pub fn available(&self) -> (r: i64)
        ensures
            r as int == self@.available,
    {
        self.available
    }

    pub fn held(&self) -> (r: i64)
        ensures
            r as int == self@.held,
    {
        self.held
    }

    pub fn total_funds(&self) -> (r: i64)
        ensures
            r as int == self@.total,
    {
        self.total_funds
    }

    pub fn is_locked(&self) -> (r: bool)
        ensures
            r == self@.locked,
    {
        self.is_locked
    }

    /// How many distinct transaction ids the client has recorded.
    pub fn transaction_count(&self) -> (r: usize)
        ensures
            r == self@.entries.len(),
    {
        self.transactions.len()
    }

    /// The record kept for `tx_id`, if any.
    pub fn transaction(&self, tx_id: u32) -> (r: Option<PreviousTransaction>)
        ensures
            r == (if self@.entries.contains_key(tx_id) {
                Some(self@.entries[tx_id])
            } else {
                None::<PreviousTransaction>
            }),
    {
        match self.transactions.get(&tx_id) {
            Some(found) => Some(*found),
            None => None,
        }
    }
}

/// A read-only projection of a client for output.
#[derive(Clone, Copy, Debug, PartialEq, Eq, Structural)]
pub struct ClientRecord {
    pub client: u16,
    pub available: i64,
    pub held: i64,
    pub total: i64,
    pub locked: bool,
}

/// The record that presents a client in state `s`.
pub open spec fn record_of(s: ClientState) -> ClientRecord {
    ClientRecord {
        client: s.id,
        available: s.available as i64,
        held: s.held as i64,
        total: s.total as i64,
        locked: s.locked,
    }
}

impl ClientRecord {
    /// Projects a client's balances and lock state. Amounts are fixed-point
    /// with four fractional digits already, so no rounding happens here.
    pub fn from_client(client: &Client) -> (r: ClientRecord)
        ensures
            r == record_of(client@),
            r.available as int == client@.available,
            r.held as int == client@.held,
            r.total as int == client@.total,
    {
        ClientRecord {
            client: client.id,
            available: client.available,
            held: client.held,
            total: client.total_funds,
            locked: client.is_locked,
        }
    }
}

} // verus!
