//! The parse boundary: a CSV row, as read, becomes a transaction; and the
//! final accounts become output rows.

use crate::amount::{rounded_amount, Amount};
use crate::engine::{process_outcome, PaymentEngine};
use crate::model::{Account, ClientId, Transaction, TxError, TxId};
use crate::laws::{client_of, lemma_conversion_keeps_the_row, tx_of};
use crate::store::Store;
use vstd::prelude::*;

verus! {

/// Why a well-formed CSV row is not a transaction.
#[derive(Debug, PartialEq, Eq)]
pub enum RowError {
    /// The type column names no known transaction type (given lowercased).
    UnknownType { kind: String, tx: TxId },
    /// A deposit or withdrawal without an amount.
    MissingAmount { tx: TxId },
    /// A deposit or withdrawal whose amount is not a valid decimal (a
    /// mantissa beyond 96 bits or a scale beyond 28).
    InvalidAmount { tx: TxId },
}

/// One CSV row as read: the type column, the ids, and the optional amount.
#[derive(Debug, PartialEq, Eq)]
pub struct CsvRecord {
    pub kind: String,
    pub client: ClientId,
    pub tx: TxId,
    pub amount: Option<Amount>,
}

/// `c` with an ASCII capital letter replaced by its small letter.
pub open spec fn ascii_lower(c: char) -> char {
    if 'A' <= c && c <= 'Z' {
        ((c as int) + 32) as char
    } else {
        c
    }
}

/// `s` with every ASCII capital letter replaced by its small letter.
pub open spec fn ascii_lowercase(s: Seq<char>) -> Seq<char> {
    s.map_values(|c: char| ascii_lower(c))
}

/// Calls std's `str::to_ascii_lowercase`. Claimed, as std documents it: the
/// result has the characters of `s`, each ASCII letter 'A' to 'Z' mapped to
/// 'a' to 'z' and every other character unchanged.
#[verifier::external_body]
fn to_ascii_lowercase(s: &str) -> (r: String)
    ensures
        r@ == ascii_lowercase(s@),
{
    s.to_ascii_lowercase()
}

/// The amount of a deposit or withdrawal row, rounded to four decimal places.
pub open spec fn row_amount(record: CsvRecord) -> Option<Amount> {
    match record.amount {
        Some(raw) => rounded_amount(raw),
        None => None,
    }
}

/// The transaction a row stands for, if it stands for one: the lowercased
/// type names one of the five kinds, and deposits and withdrawals carry a
/// valid decimal amount, which is rounded to four places. An amount on a dispute-family row is
/// ignored.
pub open spec fn record_transaction(record: CsvRecord) -> Option<Transaction> {
    let kind = ascii_lowercase(record.kind@);
    let client = record.client;
    let tx = record.tx;
    if kind == "deposit"@ {
        match row_amount(record) {
            Some(amount) => Some(Transaction::Deposit { client, tx, amount }),
            None => None,
        }
    } else if kind == "withdrawal"@ {
        match row_amount(record) {
            Some(amount) => Some(Transaction::Withdraw { client, tx, amount }),
            None => None,
        }
    } else if kind == "dispute"@ {
        Some(Transaction::Dispute { client, tx })
    } else if kind == "resolve"@ {
        Some(Transaction::Resolve { client, tx })
    } else if kind == "chargeback"@ {
        Some(Transaction::Chargeback { client, tx })
    } else {
        None
    }
}

/// `e` is the rejection of a row that stands for no transaction: a missing
/// amount, an invalid decimal amount, or an unknown type given lowercased.
pub open spec fn record_error(record: CsvRecord, e: RowError) -> bool {
    let kind = ascii_lowercase(record.kind@);
    if kind == "deposit"@ || kind == "withdrawal"@ {
        match record.amount {
            None => e == RowError::MissingAmount { tx: record.tx },
            Some(_) => e == RowError::InvalidAmount { tx: record.tx },
        }
    } else {
        &&& e is UnknownType
        &&& e->UnknownType_kind@ == kind
        &&& e->UnknownType_tx == record.tx
    }
}

/// The generic `TryFrom` specification is not used for rows: what a
/// conversion returns is stated by the `ensures` of `try_from` below, through
/// `record_transaction` and `record_error`.
impl vstd::std_specs::convert::TryFromSpecImpl<CsvRecord> for Transaction {
    open spec fn obeys_try_from_spec() -> bool {
        false
    }

    open spec fn try_from_spec(v: CsvRecord) -> Result<Transaction, RowError> {
        match record_transaction(v) {
            Some(t) => Ok(t),
            None => Err(choose|e: RowError| record_error(v, e)),
        }
    }
}

impl TryFrom<CsvRecord> for Transaction {
    type Error = RowError;

    /// The transaction the row stands for, or why it stands for none.
    fn try_from(record: CsvRecord) -> (r: Result<Transaction, RowError>)
        ensures
            match r {
                Ok(t) => record_transaction(record) == Some(t),
                Err(e) => record_transaction(record) is None && record_error(record, e),
            },
            r matches Ok(t) ==> client_of(t) == record.client && tx_of(t) == record.tx,
    {
        proof {
            lemma_conversion_keeps_the_row(record);
        }
        let kind = to_ascii_lowercase(record.kind.as_str());
        let client = record.client;
        let tx = record.tx;
        let is_deposit = kind == String::from_str("deposit");
        let is_withdrawal = kind == String::from_str("withdrawal");
        if is_deposit || is_withdrawal {
            let amount = match record.amount {
                None => return Err(RowError::MissingAmount { tx }),
                Some(raw) => match raw.round_dp4() {
                    Some(a) => a,
                    None => return Err(RowError::InvalidAmount { tx }),
                },
            };
            if is_deposit {
                Ok(Transaction::Deposit { client, tx, amount })
            } else {
                Ok(Transaction::Withdraw { client, tx, amount })
            }
        } else if kind == String::from_str("dispute") {
            Ok(Transaction::Dispute { client, tx })
        } else if kind == String::from_str("resolve") {
            Ok(Transaction::Resolve { client, tx })
        } else if kind == String::from_str("chargeback") {
            Ok(Transaction::Chargeback { client, tx })
        } else {
            Err(RowError::UnknownType { kind, tx })
        }
    }
}

/// Why a row was skipped: it stands for no transaction, or the engine
/// rejected the transaction it stands for.
#[derive(Debug, PartialEq, Eq)]
pub enum RecordError {
    Row(RowError),
    Tx(TxError),
}

/// The answer of processing a row that stands for a transaction.
pub open spec fn record_answer(r: Result<(), TxError>) -> Result<(), RecordError> {
    match r {
        Ok(()) => Ok(()),
        Err(e) => Err(RecordError::Tx(e)),
    }
}

impl PaymentEngine {
    /// Processes one row: converts it, then applies the transaction. A row
    /// that stands for no transaction leaves the state untouched.
    pub fn process_record(&mut self, record: CsvRecord) -> (r: Result<(), RecordError>)
        ensures
            match record_transaction(record) {
                None => {
                    &&& final(self).store@ == old(self).store@
                    &&& r matches Err(RecordError::Row(e)) && record_error(record, e)
                },
                Some(t) => {
                    &&& final(self).store@ == process_outcome(old(self).store@, t).0
                    &&& r == record_answer(process_outcome(old(self).store@, t).1)
                },
            },
    {
        match Transaction::try_from(record) {
            Err(e) => Err(RecordError::Row(e)),
            Ok(t) => match self.process(t) {
                Ok(()) => Ok(()),
                Err(e) => Err(RecordError::Tx(e)),
            },
        }
    }
}

/// One line of output: a client's balances, their total and the lock flag.
#[derive(Clone, Copy, Debug, PartialEq, Eq)]
pub struct AccountRow {
    pub client: ClientId,
    pub available: Amount,
    pub held: Amount,
    pub total: Amount,
    pub locked: bool,
}

/// The output row of `client` with account `a`: its total is
/// `available + held` as rust_decimal adds them.
pub open spec fn row_of(client: ClientId, a: Account) -> AccountRow {
    AccountRow {
        client,
        available: a.available,
        held: a.held,
        total: Amount::sum(a.available, a.held).unwrap(),
        locked: a.locked,
    }
}

/// The output rows of all accounts, one per client, in the order of the
/// store's hash map; `None` if some account's total overflows.
pub fn account_rows(store: &Store) -> (r: Option<Vec<AccountRow>>)
    ensures
        r is Some <==> forall|c: ClientId|
            #[trigger] store@.accounts.contains_key(c) ==> Amount::sum(
                store@.accounts[c].available,
                store@.accounts[c].held,
            ) is Some,
        r matches Some(rows) ==> {
            &&& rows@.len() == store@.accounts.dom().len()
            &&& forall|i: int|
                0 <= i < rows@.len() ==> #[trigger] store@.accounts.contains_key(rows@[i].client)
                    && rows@[i] == row_of(rows@[i].client, store@.accounts[rows@[i].client])
            &&& forall|c: ClientId|
                #[trigger] store@.accounts.contains_key(c) ==> exists|i: int|
                    0 <= i < rows@.len() && #[trigger] rows@[i].client == c
            &&& forall|i: int, j: int|
                0 <= i < rows@.len() && 0 <= j < rows@.len() && i != j ==> #[trigger] rows@[i].client
                    != #[trigger] rows@[j].client
        },
{
    let accounts = store.iter_accounts();
    let mut rows: Vec<AccountRow> = Vec::new();
    let mut i: usize = 0;
    while i < accounts.len()
        invariant
            0 <= i <= accounts@.len(),
            rows@.len() == i,
            forall|j: int|
                0 <= j < accounts@.len() ==> #[trigger] store@.accounts.contains_key(accounts@[j].0)
                    && store@.accounts[accounts@[j].0] == accounts@[j].1,
            forall|j: int|
                0 <= j < i ==> #[trigger] rows@[j] == row_of(accounts@[j].0, accounts@[j].1),
            forall|j: int|
                0 <= j < i ==> Amount::sum(#[trigger] accounts@[j].1.available, accounts@[j].1.held) is Some,
        decreases accounts@.len() - i,
    {
        let (client, account) = accounts[i];
        if account.available.checked_add(account.held).is_none() {
            assert(store@.accounts.contains_key(accounts@[i as int].0));
            return None;
        }
        let total = account.total();
        rows.push(
            AccountRow {
                client,
                available: account.available,
                held: account.held,
                total,
                locked: account.locked,
            },
        );
        i = i + 1;
    }
    assert forall|c: ClientId| #[trigger] store@.accounts.contains_key(c) implies Amount::sum(
        store@.accounts[c].available,
        store@.accounts[c].held,
    ) is Some by {
        let j = choose|j: int| 0 <= j < accounts@.len() && #[trigger] accounts@[j].0 == c;
        assert(Amount::sum(accounts@[j].1.available, accounts@[j].1.held) is Some);
    }
    assert forall|c: ClientId| #[trigger] store@.accounts.contains_key(c) implies exists|j: int|
        0 <= j < rows@.len() && #[trigger] rows@[j].client == c by {
        let j = choose|j: int| 0 <= j < accounts@.len() && #[trigger] accounts@[j].0 == c;
        assert(rows@[j].client == c);
    }
    assert forall|a: int, b: int|
        0 <= a < rows@.len() && 0 <= b < rows@.len() && a != b implies #[trigger] rows@[a].client
            != #[trigger] rows@[b].client by {
        assert(rows@[a].client == accounts@[a].0);
        assert(rows@[b].client == accounts@[b].0);
    }
    Some(rows)
}

} // verus!
