use toy_pay::amount::{amount_parts, parse_amount};
use toy_pay::client::{Client, ClientRecord, TransactionError};
use toy_pay::registry::{clients_process_all_tx, ClientRegistry};
use toy_pay::transaction::{
    InputTransaction, Transaction, TransactionConversionError, UNITS_PER_WHOLE,
};

fn balances(c: &Client) -> (i64, i64, i64, bool) {
    (c.available(), c.held(), c.total_funds(), c.is_locked())
}

fn record(kind: &str, client: u16, tx: u32, amount: Option<&str>) -> InputTransaction {
    InputTransaction {
        tx_type: kind.to_string(),
        client,
        tx_id: tx,
        amount: amount.map(|a| a.to_string()),
    }
}

#[test]
fn balance_holds_after_every_operation() {
    let mut c = Client::new(7);
    let txs = [
        Transaction::Deposit { tx_id: 1, amount: 5 * UNITS_PER_WHOLE },
        Transaction::Withdraw { tx_id: 2, amount: 12_3456 },
        Transaction::Dispute { tx_id: 1 },
        Transaction::Dispute { tx_id: 2 },
        Transaction::Resolve { tx_id: 1 },
        Transaction::Deposit { tx_id: 3, amount: -1 },
        Transaction::Chargeback { tx_id: 2 },
        Transaction::Deposit { tx_id: 4, amount: 1 },
    ];
    for tx in txs {
        assert!(c.can_process(&tx));
        let _ = c.process_transaction(tx);
        assert_eq!(c.total_funds(), c.available() + c.held());
    }
}

#[test]
fn negative_deposit_changes_nothing() {
    let mut c = Client::new(1);
    c.deposit(1, 10 * UNITS_PER_WHOLE).unwrap();
    let before = balances(&c);
    assert_eq!(
        c.deposit(2, -5),
        Err(TransactionError::InvalidAmountError { amount: -5 })
    );
    assert_eq!(balances(&c), before);
    assert!(c.transaction(2).is_none());
}

#[test]
fn negative_withdrawal_reports_amount() {
    let mut c = Client::new(1);
    assert_eq!(
        c.process_transaction(Transaction::Withdraw { tx_id: 3, amount: -7 }),
        Err(TransactionError::InvalidAmountError { amount: -7 })
    );
}

#[test]
fn dispute_of_unknown_tx_changes_nothing() {
    let mut c = Client::new(1);
    c.deposit(1, 3 * UNITS_PER_WHOLE).unwrap();
    let before = balances(&c);
    assert_eq!(c.dispute(9), Err(TransactionError::PartnerDisputeError { tx_id: 9 }));
    assert_eq!(balances(&c), before);
}

#[test]
fn second_dispute_fails_and_keeps_balances() {
    let mut c = Client::new(1);
    c.deposit(4, 10 * UNITS_PER_WHOLE).unwrap();
    assert_eq!(c.dispute(4), Ok(()));
    let after_first = balances(&c);
    assert_eq!(c.dispute(4), Err(TransactionError::PartnerDisputeError { tx_id: 4 }));
    assert_eq!(balances(&c), after_first);
}

#[test]
fn resolve_restores_pre_dispute_balances() {
    let mut c = Client::new(1);
    c.deposit(1, 10 * UNITS_PER_WHOLE).unwrap();
    c.withdraw(2, 3 * UNITS_PER_WHOLE).unwrap();
    let before = balances(&c);
    c.dispute(1).unwrap();
    c.resolve_dispute(1).unwrap();
    assert_eq!(balances(&c), before);
    assert_eq!(c.transaction(1).unwrap().is_disputed, false);
}

#[test]
fn resolve_without_dispute_changes_nothing() {
    let mut c = Client::new(1);
    c.deposit(1, 10 * UNITS_PER_WHOLE).unwrap();
    let before = balances(&c);
    assert_eq!(
        c.resolve_dispute(1),
        Err(TransactionError::PartnerResolveError { tx_id: 1 })
    );
    assert_eq!(balances(&c), before);
}

#[test]
fn chargeback_errors_name_the_tx() {
    let mut c = Client::new(1);
    assert_eq!(
        c.chargeback(5),
        Err(TransactionError::PartnerChargebackError { tx_id: 5 })
    );
}

#[test]
fn chargeback_locks_and_freezes() {
    let mut c = Client::new(1);
    c.deposit(1, 10 * UNITS_PER_WHOLE).unwrap();
    c.deposit(2, 4 * UNITS_PER_WHOLE).unwrap();
    c.dispute(1).unwrap();
    c.chargeback(1).unwrap();
    assert_eq!(balances(&c), (4 * UNITS_PER_WHOLE, 0, 4 * UNITS_PER_WHOLE, true));
    let frozen = balances(&c);
    let later = [
        Transaction::Deposit { tx_id: 3, amount: 1 },
        Transaction::Withdraw { tx_id: 4, amount: 1 },
        Transaction::Dispute { tx_id: 2 },
        Transaction::Resolve { tx_id: 1 },
        Transaction::Chargeback { tx_id: 1 },
    ];
    for tx in later {
        assert_eq!(c.process_transaction(tx), Ok(()));
        assert_eq!(balances(&c), frozen);
    }
    assert_eq!(c.transaction_count(), 2);
}

#[test]
fn deposit_dispute_chargeback_then_ignored() {
    let mut c = Client::new(1);
    let ten = 10 * UNITS_PER_WHOLE;
    c.process_transaction(Transaction::Deposit { tx_id: 1, amount: ten }).unwrap();
    assert_eq!(balances(&c), (ten, 0, ten, false));
    c.process_transaction(Transaction::Dispute { tx_id: 1 }).unwrap();
    assert_eq!(balances(&c), (0, ten, ten, false));
    c.process_transaction(Transaction::Chargeback { tx_id: 1 }).unwrap();
    assert_eq!(balances(&c), (0, 0, 0, true));
    c.process_transaction(Transaction::Deposit { tx_id: 2, amount: 5 * UNITS_PER_WHOLE })
        .unwrap();
    assert_eq!(balances(&c), (0, 0, 0, true));
}

#[test]
fn overdraft_withdrawal_succeeds() {
    let mut c = Client::new(1);
    let fifty = 50 * UNITS_PER_WHOLE;
    assert_eq!(c.process_transaction(Transaction::Withdraw { tx_id: 1, amount: fifty }), Ok(()));
    assert_eq!(balances(&c), (-fifty, 0, -fifty, false));
}

#[test]
fn reused_tx_id_keeps_latest_amount() {
    let mut c = Client::new(1);
    c.deposit(1, 10).unwrap();
    c.deposit(1, 3).unwrap();
    assert_eq!(c.transaction_count(), 1);
    c.dispute(1).unwrap();
    assert_eq!(balances(&c), (10, 3, 13, false));
}

#[test]
fn overflowing_deposit_is_detected() {
    let mut c = Client::new(1);
    c.deposit(1, i64::MAX).unwrap();
    assert!(!c.can_process(&Transaction::Deposit { tx_id: 2, amount: 1 }));
    assert!(c.can_process(&Transaction::Deposit { tx_id: 2, amount: -1 }));
    assert!(c.can_process(&Transaction::Withdraw { tx_id: 2, amount: 1 }));
}

#[test]
fn record_of_client() {
    let mut c = Client::new(9);
    c.deposit(1, 12_5000).unwrap();
    c.dispute(1).unwrap();
    let r = ClientRecord::from_client(&c);
    assert_eq!(
        r,
        ClientRecord { client: 9, available: 0, held: 12_5000, total: 12_5000, locked: false }
    );
}

#[test]
fn conversion_of_each_kind() {
    assert_eq!(
        Transaction::from_input_transaction(&record("deposit", 1, 1, Some("1.5"))),
        Ok(Transaction::Deposit { tx_id: 1, amount: 1_5000 })
    );
    assert_eq!(
        Transaction::from_input_transaction(&record("withdrawal", 1, 2, Some("0.0001"))),
        Ok(Transaction::Withdraw { tx_id: 2, amount: 1 })
    );
    assert_eq!(
        Transaction::from_input_transaction(&record("dispute", 1, 3, None)),
        Ok(Transaction::Dispute { tx_id: 3 })
    );
    assert_eq!(
        Transaction::from_input_transaction(&record("resolve", 1, 4, None)),
        Ok(Transaction::Resolve { tx_id: 4 })
    );
    assert_eq!(
        Transaction::from_input_transaction(&record("chargeback", 1, 5, Some("2"))),
        Ok(Transaction::Chargeback { tx_id: 5 })
    );
}

#[test]
fn conversion_errors() {
    assert_eq!(
        Transaction::from_input_transaction(&record("refund", 1, 6, Some("1"))),
        Err(TransactionConversionError::UnknownTransactionType { tx_id: 6 })
    );
    assert_eq!(
        Transaction::from_input_transaction(&record("Deposit", 1, 7, Some("1"))),
        Err(TransactionConversionError::UnknownTransactionType { tx_id: 7 })
    );
    assert_eq!(
        Transaction::from_input_transaction(&record("deposit", 1, 8, None)),
        Err(TransactionConversionError::MissingAmount { tx_id: 8 })
    );
    assert_eq!(
        Transaction::from_input_transaction(&record("withdrawal", 1, 9, Some("1.2.3"))),
        Err(TransactionConversionError::MalformedAmount { tx_id: 9 })
    );
}

#[test]
fn parse_amount_forms() {
    assert_eq!(parse_amount("32"), Some(32_0000));
    assert_eq!(parse_amount("32.0"), Some(32_0000));
    assert_eq!(parse_amount("1.2345"), Some(1_2345));
    assert_eq!(parse_amount("1.23456"), Some(1_2345));
    assert_eq!(parse_amount(".5"), Some(5000));
    assert_eq!(parse_amount("7."), Some(7_0000));
    assert_eq!(parse_amount("-2.5"), Some(-2_5000));
    assert_eq!(parse_amount("+0.25"), Some(2500));
    assert_eq!(parse_amount("922337203685477.5807"), Some(i64::MAX));
    assert_eq!(parse_amount("-922337203685477.5807"), Some(-i64::MAX));
}

#[test]
fn parse_amount_rejects() {
    assert_eq!(parse_amount(""), None);
    assert_eq!(parse_amount("."), None);
    assert_eq!(parse_amount("-"), None);
    assert_eq!(parse_amount("1e5"), None);
    assert_eq!(parse_amount(" 1"), None);
    assert_eq!(parse_amount("1.2.3"), None);
    assert_eq!(parse_amount("1.00a"), None);
    assert_eq!(parse_amount("922337203685477.5808"), None);
    assert_eq!(parse_amount("99999999999999999999"), None);
}

#[test]
fn amount_parts_examples() {
    assert_eq!(amount_parts(32_0000), (false, 32, 0));
    assert_eq!(amount_parts(-2_5000), (true, 2, 5000));
    assert_eq!(amount_parts(-1), (true, 0, 1));
    assert_eq!(amount_parts(0), (false, 0, 0));
    assert_eq!(amount_parts(i64::MIN), (true, 922337203685477, 5808));
}

#[test]
fn registry_creates_clients_on_first_use() {
    let mut reg = ClientRegistry::new();
    assert!(reg.get(3).is_none());
    assert_eq!(
        reg.apply(3, Transaction::Dispute { tx_id: 1 }),
        Err(TransactionError::PartnerDisputeError { tx_id: 1 })
    );
    let c = reg.get(3).unwrap();
    assert_eq!(c.id(), 3);
    assert_eq!(balances(c), (0, 0, 0, false));
    reg.apply(3, Transaction::Deposit { tx_id: 2, amount: 5 }).unwrap();
    assert_eq!(reg.get(3).unwrap().available(), 5);
}

#[test]
fn registry_snapshot_lists_each_client_once() {
    let mut reg = ClientRegistry::new();
    reg.apply(2, Transaction::Deposit { tx_id: 1, amount: 5 }).unwrap();
    reg.apply(1, Transaction::Deposit { tx_id: 2, amount: 7 }).unwrap();
    reg.apply(2, Transaction::Withdraw { tx_id: 3, amount: 1 }).unwrap();
    let snap = reg.snapshot_all();
    assert_eq!(
        snap,
        vec![
            ClientRecord { client: 2, available: 4, held: 0, total: 4, locked: false },
            ClientRecord { client: 1, available: 7, held: 0, total: 7, locked: false },
        ]
    );
}

#[test]
fn process_all_skips_bad_records() {
    let records = vec![
        record("deposit", 1, 1, Some("10.0")),
        record("bogus", 2, 2, Some("1.0")),
        record("deposit", 2, 3, None),
        record("withdrawal", 1, 4, Some("2.5")),
        record("dispute", 1, 1, None),
        record("dispute", 3, 99, None),
        record("chargeback", 1, 1, None),
        record("deposit", 1, 5, Some("100")),
    ];
    let reg = clients_process_all_tx(&records);
    assert!(reg.get(2).is_none());
    let c1 = reg.get(1).unwrap();
    assert_eq!(balances(c1), (-2_5000, 0, -2_5000, true));
    let c3 = reg.get(3).unwrap();
    assert_eq!(balances(c3), (0, 0, 0, false));
    assert_eq!(reg.snapshot_all().len(), 2);
}

#[test]
fn resolve_or_create_adds_a_fresh_client_once() {
    let mut reg = ClientRegistry::new();
    reg.resolve_or_create(4);
    assert_eq!(balances(reg.get(4).unwrap()), (0, 0, 0, false));
    reg.apply(4, Transaction::Deposit { tx_id: 1, amount: 9 }).unwrap();
    reg.resolve_or_create(4);
    assert_eq!(reg.get(4).unwrap().available(), 9);
    assert_eq!(reg.snapshot_all().len(), 1);
}
