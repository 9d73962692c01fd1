//! Properties of the client state machine that span several transactions.
use vstd::prelude::*;
use crate::client::{ClientState, TransactionError};
use crate::transaction::Transaction;

verus! {

/// The state after processing `txs` in order, starting from `s`.
pub open spec fn run(s: ClientState, txs: Seq<Transaction>) -> ClientState
    decreases txs.len(),
{
    if txs.len() == 0 {
        s
    } else {
        run(s, txs.drop_last()).step(txs.last())
    }
}

/// Each transaction keeps total funds equal to available plus held.
pub proof fn lemma_step_keeps_balance(s: ClientState, tx: Transaction)
    requires
        s.balanced(),
    ensures
        s.step(tx).balanced(),
{
}

/// Starting balanced, every prefix of any transaction sequence leaves total
/// funds equal to available plus held.
pub proof fn lemma_run_keeps_balance(s: ClientState, txs: Seq<Transaction>)
    requires
        s.balanced(),
    ensures
        forall|i: int| 0 <= i <= txs.len() ==> (#[trigger] run(s, txs.take(i))).balanced(),
    decreases txs.len(),
{
    if txs.len() > 0 {
        let shorter = txs.drop_last();
        lemma_run_keeps_balance(s, shorter);
        assert forall|i: int| 0 <= i <= txs.len() implies (#[trigger] run(s, txs.take(i))).balanced() by {
            if i < txs.len() {
                assert(txs.take(i) =~= shorter.take(i));
            } else {
                assert(txs.take(i) =~= txs);
                assert(shorter.take(shorter.len() as int) =~= shorter);
                lemma_step_keeps_balance(run(s, shorter), txs.last());
            }
        }
    }
}

/// Depositing a negative amount is rejected and changes nothing.
pub proof fn lemma_negative_deposit_rejected(s: ClientState, tx_id: u32, amount: i64)
    requires
        !s.locked,
        amount < 0,
    ensures
        s.step(Transaction::Deposit { tx_id, amount }) == s,
        s.outcome(Transaction::Deposit { tx_id, amount }) == Err::<(), TransactionError>(
            TransactionError::InvalidAmountError { amount },
        ),
{
}

/// Disputing a transaction id never recorded is rejected and changes nothing.
pub proof fn lemma_dispute_unknown_rejected(s: ClientState, tx_id: u32)
    requires
        !s.locked,
        !s.entries.contains_key(tx_id),
    ensures
        s.step(Transaction::Dispute { tx_id }) == s,
        s.outcome(Transaction::Dispute { tx_id }) == Err::<(), TransactionError>(
            TransactionError::PartnerDisputeError { tx_id },
        ),
{
}

/// Disputing the same transaction twice: the first succeeds, the second is
/// rejected and leaves the state of the first in place.
pub proof fn lemma_dispute_twice(s: ClientState, tx_id: u32)
    requires
        !s.locked,
        s.can_dispute(tx_id),
    ensures
        s.outcome(Transaction::Dispute { tx_id }) == Ok::<(), TransactionError>(()),
        s.step(Transaction::Dispute { tx_id }).outcome(Transaction::Dispute { tx_id })
            == Err::<(), TransactionError>(TransactionError::PartnerDisputeError { tx_id }),
        s.step(Transaction::Dispute { tx_id }).step(Transaction::Dispute { tx_id })
            == s.step(Transaction::Dispute { tx_id }),
{
}

/// Resolving right after a dispute restores the state before the dispute.
pub proof fn lemma_resolve_undoes_dispute(s: ClientState, tx_id: u32)
    requires
        !s.locked,
        s.can_dispute(tx_id),
    ensures
        s.step(Transaction::Dispute { tx_id }).outcome(Transaction::Resolve { tx_id })
            == Ok::<(), TransactionError>(()),
        s.step(Transaction::Dispute { tx_id }).step(Transaction::Resolve { tx_id }) == s,
{
    let d = s.step(Transaction::Dispute { tx_id });
    assert(d.step(Transaction::Resolve { tx_id }).entries =~= s.entries);
}

/// Resolving a transaction that is not under dispute is rejected and changes
/// nothing.
pub proof fn lemma_resolve_without_dispute_rejected(s: ClientState, tx_id: u32)
    requires
        !s.locked,
        !s.under_dispute(tx_id),
    ensures
        s.step(Transaction::Resolve { tx_id }) == s,
        s.outcome(Transaction::Resolve { tx_id }) == Err::<(), TransactionError>(
            TransactionError::PartnerResolveError { tx_id },
        ),
{
}

/// A chargeback after a dispute takes the amount out of held and total funds
/// and locks the client, which then ignores every further transaction.
pub proof fn lemma_chargeback_after_dispute(s: ClientState, tx_id: u32)
    requires
        !s.locked,
        s.can_dispute(tx_id),
    ensures
        ({
            let d = s.step(Transaction::Dispute { tx_id });
            let c = d.step(Transaction::Chargeback { tx_id });
            &&& d.outcome(Transaction::Chargeback { tx_id }) == Ok::<(), TransactionError>(())
            &&& c.held == d.held - s.entries[tx_id].amount
            &&& c.total == d.total - s.entries[tx_id].amount
            &&& c.available == d.available
            &&& c.locked
            &&& forall|tx: Transaction| #[trigger] c.step(tx) == c && c.outcome(tx) == Ok::<(), TransactionError>(())
        }),
{
}

/// A locked client ignores every transaction: nothing changes, not even the
/// lock, and success is reported.
pub proof fn lemma_locked_ignores(s: ClientState, tx: Transaction)
    requires
        s.locked,
    ensures
        s.step(tx) == s,
        s.outcome(tx) == Ok::<(), TransactionError>(()),
{
}

} // verus!
