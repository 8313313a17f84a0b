//! Domain types shared by the whole crate: transactions, accounts, deposit
//! records, and the typed rejection errors.

use crate::amount::Amount;
use vstd::prelude::*;

verus! {

/// Client identifier.
pub type ClientId = u16;

/// Transaction identifier, unique among deposits and withdrawals;
/// dispute-family transactions reference an existing deposit's id.
pub type TxId = u32;

/// A validated transaction, ready for `PaymentEngine::process`.
///
/// Deposits and withdrawals carry their own `tx` id and amount. The
/// dispute-family variants carry no amount: their `tx` references the deposit
/// they act on, and the amount is taken from the stored `DepositRecord`.
#[derive(Clone, Copy, Debug, PartialEq, Eq)]
pub enum Transaction {
    Deposit { client: ClientId, tx: TxId, amount: Amount },
    Withdraw { client: ClientId, tx: TxId, amount: Amount },
    Dispute { client: ClientId, tx: TxId },
    Resolve { client: ClientId, tx: TxId },
    Chargeback { client: ClientId, tx: TxId },
}

/// A client's balances and frozen status.
///
/// `available` may go negative (a dispute of an already spent deposit);
/// `held` holds the funds of open disputes. There is no stored total: see
/// `Account::total`.
#[derive(Clone, Copy, Debug, PartialEq, Eq)]
pub struct Account {
    pub available: Amount,
    pub held: Amount,
    pub locked: bool,
}

/// The zeroed, unlocked account every client starts with.
pub open spec fn default_account() -> Account {
    Account {
        available: Amount { mantissa: 0, scale: 0 },
        held: Amount { mantissa: 0, scale: 0 },
        locked: false,
    }
}

impl Account {
    /// Available and held funds are both valid decimals.
    pub open spec fn wf(self) -> bool {
        self.available.wf() && self.held.wf()
    }

    /// Total funds, `available + held`, computed on demand as rust_decimal
    /// adds them.
    pub fn total(&self) -> (r: Amount)
        requires
            Amount::sum(self.available, self.held) is Some,
        ensures
            Some(r) == Amount::sum(self.available, self.held),
    {
        self.available.checked_add(self.held).unwrap()
    }
}

impl Default for Account {
    fn default() -> (r: Account)
        ensures
            r == default_account(),
    {
        Account { available: Amount::zero(), held: Amount::zero(), locked: false }
    }
}

/// Dispute lifecycle of a deposit: `Posted <-> Disputed -> ChargedBack`.
#[derive(Clone, Copy, Debug, PartialEq, Eq, Structural)]
pub enum DepositState {
    Posted,
    Disputed,
    ChargedBack,
}

/// A retained deposit: its owner, its amount and its dispute state.
#[derive(Clone, Copy, Debug, PartialEq, Eq)]
pub struct DepositRecord {
    pub client: ClientId,
    pub amount: Amount,
    pub state: DepositState,
}

/// Why the engine rejected a transaction. Whenever one of these is returned
/// the balances and deposit records are untouched.
#[derive(Clone, Copy, Debug, PartialEq, Eq)]
pub enum TxError {
    /// Deposit or withdrawal on an account frozen by a chargeback.
    AccountLocked { client: ClientId },
    /// Deposit or withdrawal with a zero or negative amount.
    NonPositiveAmount { amount: Amount },
    /// Deposit reusing an existing tx id: the first deposit wins.
    DuplicateTx { tx: TxId },
    /// Withdrawal larger than the available balance.
    InsufficientFunds { available: Amount, requested: Amount },
    /// Dispute-family transaction referencing a tx id that was never stored.
    UnknownTx { tx: TxId },
    /// Dispute-family transaction whose client is not the deposit's owner.
    ClientMismatch { tx: TxId, owner: ClientId, claimed: ClientId },
    /// Dispute on a deposit that is not `Posted`.
    NotDisputable { tx: TxId },
    /// Resolve or chargeback on a deposit with no open dispute.
    NotUnderDispute { tx: TxId },
    /// The transaction's arithmetic on a balance overflows a decimal.
    BalanceOverflow { tx: TxId },
}

} // verus!
