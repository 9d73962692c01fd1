use vstd::prelude::*;
use crate::amount::{amount_in_range, parse_amount};

verus! {

/// Number of amount units in one whole currency unit (four fractional digits).
pub const UNITS_PER_WHOLE: i64 = 10000;

/// A transaction that can be processed by a client.
///
/// Amounts are counted in ten-thousandths of a currency unit.
#[derive(Clone, Copy, Debug, PartialEq, Eq, Structural)]
pub enum Transaction {
    Withdraw { tx_id: u32, amount: i64 },
    Deposit { tx_id: u32, amount: i64 },
    Dispute { tx_id: u32 },
    Resolve { tx_id: u32 },
    Chargeback { tx_id: u32 },
}

/// Why a raw record could not become a [`Transaction`].
#[derive(Clone, Copy, Debug, PartialEq, Eq, Structural)]
pub enum TransactionConversionError {
    /// The record's type names none of the five transaction kinds.
    UnknownTransactionType { tx_id: u32 },
    /// A deposit or withdrawal record carries no amount.
    MissingAmount { tx_id: u32 },
    /// A deposit or withdrawal record's amount is not decimal text whose
    /// magnitude fits in an `i64` of ten-thousandths.
    MalformedAmount { tx_id: u32 },
}

/// A raw transaction record as read from an input stream.
///
/// `amount` is decimal text; only deposits and withdrawals need it.
pub struct InputTransaction {
    pub tx_type: String,
    pub client: u16,
    pub tx_id: u32,
    pub amount: Option<String>,
}

/// The amount of a deposit or withdrawal record, or why there is none.
pub open spec fn with_amount(
    tx_id: u32,
    amount: Option<Seq<char>>,
    make: spec_fn(i64) -> Transaction,
) -> Result<Transaction, TransactionConversionError> {
    match amount {
        Some(a) => match amount_in_range(a) {
            Some(v) => Ok(make(v)),
            None => Err(TransactionConversionError::MalformedAmount { tx_id }),
        },
        None => Err(TransactionConversionError::MissingAmount { tx_id }),
    }
}

/// The transaction a raw record denotes.
pub open spec fn converted(tx_type: Seq<char>, tx_id: u32, amount: Option<Seq<char>>) -> Result<
    Transaction,
    TransactionConversionError,
> {
    if tx_type == "withdrawal"@ {
        with_amount(tx_id, amount, |a: i64| Transaction::Withdraw { tx_id, amount: a })
    } else if tx_type == "deposit"@ {
        with_amount(tx_id, amount, |a: i64| Transaction::Deposit { tx_id, amount: a })
    } else if tx_type == "dispute"@ {
        Ok(Transaction::Dispute { tx_id })
    } else if tx_type == "resolve"@ {
        Ok(Transaction::Resolve { tx_id })
    } else if tx_type == "chargeback"@ {
        Ok(Transaction::Chargeback { tx_id })
    } else {
        Err(TransactionConversionError::UnknownTransactionType { tx_id })
    }
}

/// The text of an optional amount.
pub open spec fn amount_text(amount: Option<String>) -> Option<Seq<char>> {
    match amount {
        Some(a) => Some(a@),
        None => None,
    }
}

/// Reads the amount that a deposit or withdrawal record needs.
fn required_amount(itx: &InputTransaction) -> (r: Result<i64, TransactionConversionError>)
    ensures
        r == (match amount_text(itx.amount) {
            Some(a) => match amount_in_range(a) {
                Some(v) => Ok(v),
                None => Err(TransactionConversionError::MalformedAmount { tx_id: itx.tx_id }),
            },
            None => Err(TransactionConversionError::MissingAmount { tx_id: itx.tx_id }),
        }),
{
    match &itx.amount {
        Some(text) => match parse_amount(text.as_str()) {
            Some(v) => Ok(v),
            None => Err(TransactionConversionError::MalformedAmount { tx_id: itx.tx_id }),
        },
        None => Err(TransactionConversionError::MissingAmount { tx_id: itx.tx_id }),
    }
}

/// Whether `s` spells exactly `word`.
fn text_is(s: &str, word: &str) -> (r: bool)
    ensures
        r == (s@ == word@),
{
    let n = s.unicode_len();
    if n != word.unicode_len() {
        return false;
    }
    let mut i: usize = 0;
    while i < n
        invariant
            n == s@.len(),
            n == word@.len(),
            i <= n,
            forall|j: int| 0 <= j < i ==> s@[j] == word@[j],
        decreases n - i,
    {
        if s.get_char(i) != word.get_char(i) {
            return false;
        }
        i = i + 1;
    }
    assert(s@ =~= word@);
    true
}

impl Transaction {
    /// Converts a raw record: `"deposit"`, `"withdrawal"`, `"dispute"`,
    /// `"resolve"` and `"chargeback"` name the five kinds; deposits and
    /// withdrawals need an amount.
    pub fn from_input_transaction(itx: &InputTransaction) -> (r: Result<
        Transaction,
        TransactionConversionError,
    >)
        ensures
            r == converted(itx.tx_type@, itx.tx_id, amount_text(itx.amount)),
    {
        let t = itx.tx_type.as_str();
        if text_is(t, "withdrawal") {
            match required_amount(itx) {
                Ok(amount) => Ok(Transaction::Withdraw { tx_id: itx.tx_id, amount }),
                Err(e) => Err(e),
            }
        } else if text_is(t, "deposit") {
            match required_amount(itx) {
                Ok(amount) => Ok(Transaction::Deposit { tx_id: itx.tx_id, amount }),
                Err(e) => Err(e),
            }
        } else if text_is(t, "dispute") {
            Ok(Transaction::Dispute { tx_id: itx.tx_id })
        } else if text_is(t, "resolve") {
            Ok(Transaction::Resolve { tx_id: itx.tx_id })
        } else if text_is(t, "chargeback") {
            Ok(Transaction::Chargeback { tx_id: itx.tx_id })
        } else {
            Err(TransactionConversionError::UnknownTransactionType { tx_id: itx.tx_id })
        }
    }
}

} // verus!
