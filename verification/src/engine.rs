//! The business rules: how each transaction changes the accounts and the
//! deposit records, and when it is rejected.

use crate::amount::{lemma_value_sign, Amount};
use crate::model::{
    Account, ClientId, DepositRecord, DepositState, Transaction, TxError, TxId,
};
use crate::laws::{engine_invariant, held_change_fits, lemma_process_keeps_invariant};
use crate::store::{account_or_default, Store, StoreView};
use vstd::prelude::*;

verus! {

/// `a` with new balances.
pub open spec fn with_balances(a: Account, available: Amount, held: Amount) -> Account {
    Account { available, held, locked: a.locked }
}

/// `s` with the client's account created if it did not exist yet.
pub open spec fn touch_account(s: StoreView, client: ClientId) -> StoreView {
    StoreView {
        accounts: s.accounts.insert(client, account_or_default(s.accounts, client)),
        deposits: s.deposits,
    }
}

/// `a < b` by value; false unless both are valid decimals.
pub open spec fn value_less(a: Amount, b: Amount) -> bool {
    a.wf() && b.wf() && a.value() < b.value()
}

/// Outcome of a deposit: the account is created first; rejected if it is
/// locked, if the amount is not positive, if the tx id is already stored, or
/// if adding the amount to the available funds overflows; otherwise the
/// available funds become that sum and the deposit is stored as `Posted`.
pub open spec fn deposit_outcome(s: StoreView, client: ClientId, tx: TxId, amount: Amount) -> (
    StoreView,
    Result<(), TxError>,
) {
    let a = account_or_default(s.accounts, client);
    let touched = touch_account(s, client);
    if a.locked {
        (touched, Err(TxError::AccountLocked { client }))
    } else if amount.mantissa <= 0 {
        (touched, Err(TxError::NonPositiveAmount { amount }))
    } else if s.deposits.contains_key(tx) {
        (touched, Err(TxError::DuplicateTx { tx }))
    } else {
        match Amount::sum(a.available, amount) {
            None => (touched, Err(TxError::BalanceOverflow { tx })),
            Some(available) => (
                StoreView {
                    accounts: s.accounts.insert(client, with_balances(a, available, a.held)),
                    deposits: s.deposits.insert(
                        tx,
                        DepositRecord { client, amount, state: DepositState::Posted },
                    ),
                },
                Ok(()),
            ),
        }
    }
}

/// Outcome of a withdrawal: the account is created first; rejected if it is
/// locked, if the amount is not positive, if it exceeds the available funds,
/// or if the subtraction overflows; otherwise the available funds become the
/// difference. Withdrawals are not stored.
pub open spec fn withdraw_outcome(s: StoreView, client: ClientId, tx: TxId, amount: Amount) -> (
    StoreView,
    Result<(), TxError>,
) {
    let a = account_or_default(s.accounts, client);
    let touched = touch_account(s, client);
    if a.locked {
        (touched, Err(TxError::AccountLocked { client }))
    } else if amount.mantissa <= 0 {
        (touched, Err(TxError::NonPositiveAmount { amount }))
    } else if value_less(a.available, amount) {
        (touched, Err(TxError::InsufficientFunds { available: a.available, requested: amount }))
    } else {
        match Amount::difference(a.available, amount) {
            None => (touched, Err(TxError::BalanceOverflow { tx })),
            Some(available) => (
                StoreView {
                    accounts: s.accounts.insert(client, with_balances(a, available, a.held)),
                    deposits: s.deposits,
                },
                Ok(()),
            ),
        }
    }
}

/// Rejection common to the dispute family: the tx id must name a stored
/// deposit of the claiming client.
pub open spec fn lookup_error(s: StoreView, client: ClientId, tx: TxId) -> Option<TxError> {
    if !s.deposits.contains_key(tx) {
        Some(TxError::UnknownTx { tx })
    } else if s.deposits[tx].client != client {
        Some(TxError::ClientMismatch { tx, owner: s.deposits[tx].client, claimed: client })
    } else {
        None
    }
}

/// Outcome of a dispute: rejected (state untouched) if the deposit is
/// unknown, owned by another client, not `Posted`, or if moving its amount
/// overflows; otherwise the amount moves from available to held and the
/// deposit becomes `Disputed`.
pub open spec fn dispute_outcome(s: StoreView, client: ClientId, tx: TxId) -> (
    StoreView,
    Result<(), TxError>,
) {
    match lookup_error(s, client, tx) {
        Some(e) => (s, Err(e)),
        None => {
            let r = s.deposits[tx];
            let a = account_or_default(s.accounts, client);
            if r.state != DepositState::Posted {
                (s, Err(TxError::NotDisputable { tx }))
            } else {
                match (Amount::difference(a.available, r.amount), Amount::sum(a.held, r.amount)) {
                    (Some(available), Some(held)) => (
                        StoreView {
                            accounts: s.accounts.insert(client, with_balances(a, available, held)),
                            deposits: s.deposits.insert(
                                tx,
                                DepositRecord { state: DepositState::Disputed, ..r },
                            ),
                        },
                        Ok(()),
                    ),
                    _ => (s, Err(TxError::BalanceOverflow { tx })),
                }
            }
        },
    }
}

/// Outcome of a resolve: rejected (state untouched) if the deposit is
/// unknown, owned by another client, not `Disputed`, or if moving its amount
/// overflows; otherwise the amount moves from held back to available and the
/// deposit becomes `Posted` again.
pub open spec fn resolve_outcome(s: StoreView, client: ClientId, tx: TxId) -> (
    StoreView,
    Result<(), TxError>,
) {
    match lookup_error(s, client, tx) {
        Some(e) => (s, Err(e)),
        None => {
            let r = s.deposits[tx];
            let a = account_or_default(s.accounts, client);
            if r.state != DepositState::Disputed {
                (s, Err(TxError::NotUnderDispute { tx }))
            } else {
                match (Amount::sum(a.available, r.amount), Amount::difference(a.held, r.amount)) {
                    (Some(available), Some(held)) => (
                        StoreView {
                            accounts: s.accounts.insert(client, with_balances(a, available, held)),
                            deposits: s.deposits.insert(
                                tx,
                                DepositRecord { state: DepositState::Posted, ..r },
                            ),
                        },
                        Ok(()),
                    ),
                    _ => (s, Err(TxError::BalanceOverflow { tx })),
                }
            }
        },
    }
}

/// Outcome of a chargeback: rejected (state untouched) if the deposit is
/// unknown, owned by another client, not `Disputed`, or if removing its amount
/// from the held funds overflows; otherwise the amount leaves the held funds,
/// the account is locked and the deposit becomes `ChargedBack`.
pub open spec fn chargeback_outcome(s: StoreView, client: ClientId, tx: TxId) -> (
    StoreView,
    Result<(), TxError>,
) {
    match lookup_error(s, client, tx) {
        Some(e) => (s, Err(e)),
        None => {
            let r = s.deposits[tx];
            let a = account_or_default(s.accounts, client);
            if r.state != DepositState::Disputed {
                (s, Err(TxError::NotUnderDispute { tx }))
            } else {
                match Amount::difference(a.held, r.amount) {
                    Some(held) => (
                        StoreView {
                            accounts: s.accounts.insert(
                                client,
                                Account { held, locked: true, ..a },
                            ),
                            deposits: s.deposits.insert(
                                tx,
                                DepositRecord { state: DepositState::ChargedBack, ..r },
                            ),
                        },
                        Ok(()),
                    ),
                    None => (s, Err(TxError::BalanceOverflow { tx })),
                }
            }
        },
    }
}

/// A deposit or withdrawal carries a valid decimal amount; the other
/// transactions carry none.
pub open spec fn carries_valid_amount(t: Transaction) -> bool {
    match t {
        Transaction::Deposit { amount, .. } => amount.wf(),
        Transaction::Withdraw { amount, .. } => amount.wf(),
        _ => true,
    }
}

/// Outcome of processing one transaction: the new store contents and the
/// engine's answer.
pub open spec fn process_outcome(s: StoreView, tx: Transaction) -> (
    StoreView,
    Result<(), TxError>,
) {
    match tx {
        Transaction::Deposit { client, tx, amount } => deposit_outcome(s, client, tx, amount),
        Transaction::Withdraw { client, tx, amount } => withdraw_outcome(s, client, tx, amount),
        Transaction::Dispute { client, tx } => dispute_outcome(s, client, tx),
        Transaction::Resolve { client, tx } => resolve_outcome(s, client, tx),
        Transaction::Chargeback { client, tx } => chargeback_outcome(s, client, tx),
    }
}

/// Applies transactions, one at a time, to the state it owns.
pub struct PaymentEngine {
    pub store: Store,
}

impl Default for PaymentEngine {
    /// An engine with no accounts and no deposits.
    fn default() -> (e: PaymentEngine)
        ensures
            e.store@.accounts == Map::<ClientId, Account>::empty(),
            e.store@.deposits == Map::<TxId, DepositRecord>::empty(),
    {
        PaymentEngine::new()
    }
}

impl PaymentEngine {
    /// An engine with no accounts and no deposits.
    pub fn new() -> (e: PaymentEngine)
        ensures
            e.store@.accounts == Map::<ClientId, Account>::empty(),
            e.store@.deposits == Map::<TxId, DepositRecord>::empty(),
    {
        PaymentEngine { store: Store::new() }
    }

    /// The state the engine holds.
    pub fn store(&self) -> (r: &Store)
        ensures
            r == &self.store,
    {
        &self.store
    }

    /// Applies one transaction. The new store contents and the answer are
    /// exactly those of `process_outcome`. A transaction with a valid amount
    /// that is refused for overflow changes nothing, not even by creating an
    /// account.
    pub fn process(&mut self, tx: Transaction) -> (r: Result<(), TxError>)
        ensures
            final(self).store@ == process_outcome(old(self).store@, tx).0,
            r == process_outcome(old(self).store@, tx).1,
            carries_valid_amount(tx) && (r matches Err(TxError::BalanceOverflow { .. }))
                ==> final(self).store@ == old(self).store@,
            engine_invariant(old(self).store@) && held_change_fits(old(self).store@, tx)
                ==> engine_invariant(final(self).store@),
    {
        let r = match tx {
            Transaction::Deposit { client, tx, amount } => self.deposit(client, tx, amount),
            Transaction::Withdraw { client, tx, amount } => self.withdraw(client, tx, amount),
            Transaction::Dispute { client, tx } => self.dispute(client, tx),
            Transaction::Resolve { client, tx } => self.resolve(client, tx),
            Transaction::Chargeback { client, tx } => self.chargeback(client, tx),
        };
        proof {
            if engine_invariant(old(self).store@) && held_change_fits(old(self).store@, tx) {
                lemma_process_keeps_invariant(old(self).store@, tx);
            }
        }
        r
    }

    fn deposit(&mut self, client: ClientId, tx: TxId, amount: Amount) -> (r: Result<(), TxError>)
        ensures
            final(self).store@ == deposit_outcome(old(self).store@, client, tx, amount).0,
            r == deposit_outcome(old(self).store@, client, tx, amount).1,
            amount.wf() && (r matches Err(TxError::BalanceOverflow { .. }))
                ==> final(self).store@ == old(self).store@,
    {
        let account = *self.store.account_or_create(client);
        assert(self.store@ =~= touch_account(old(self).store@, client));
        if account.locked {
            return Err(TxError::AccountLocked { client });
        }
        if !amount.is_positive() {
            return Err(TxError::NonPositiveAmount { amount });
        }
        if self.store.contains_tx(tx) {
            return Err(TxError::DuplicateTx { tx });
        }
        let available = match account.available.checked_add(amount) {
            Some(v) => v,
            None => {
                proof {
                    if old(self).store@.accounts.contains_key(client) {
                        assert(self.store@ =~= old(self).store@);
                    }
                }
                return Err(TxError::BalanceOverflow { tx });
            },
        };
        let acct = self.store.account_or_create(client);
        acct.available = available;
        self.store.insert_deposit(tx, DepositRecord { client, amount, state: DepositState::Posted });
        Ok(())
    }

    fn withdraw(&mut self, client: ClientId, tx: TxId, amount: Amount) -> (r: Result<(), TxError>)
        ensures
            final(self).store@ == withdraw_outcome(old(self).store@, client, tx, amount).0,
            r == withdraw_outcome(old(self).store@, client, tx, amount).1,
            amount.wf() && (r matches Err(TxError::BalanceOverflow { .. }))
                ==> final(self).store@ == old(self).store@,
    {
        let account = *self.store.account_or_create(client);
        assert(self.store@ =~= touch_account(old(self).store@, client));
        if account.locked {
            return Err(TxError::AccountLocked { client });
        }
        if !amount.is_positive() {
            return Err(TxError::NonPositiveAmount { amount });
        }
        if account.available.is_valid() && amount.is_valid() && account.available.less_than(amount) {
            return Err(TxError::InsufficientFunds { available: account.available, requested: amount });
        }
        let available = match account.available.checked_sub(amount) {
            Some(v) => v,
            None => {
                proof {
                    lemma_value_sign(amount);
                    if old(self).store@.accounts.contains_key(client) {
                        assert(self.store@ =~= old(self).store@);
                    }
                }
                return Err(TxError::BalanceOverflow { tx });
            },
        };
        let acct = self.store.account_or_create(client);
        acct.available = available;
        Ok(())
    }

    /// The stored deposit `tx` if it belongs to `client`, else the rejection.
    fn owned_deposit(&self, client: ClientId, tx: TxId) -> (r: Result<DepositRecord, TxError>)
        ensures
            match lookup_error(self.store@, client, tx) {
                Some(e) => r == Err::<DepositRecord, TxError>(e),
                None => r == Ok::<DepositRecord, TxError>(self.store@.deposits[tx]),
            },
    {
        let record = match self.store.get_deposit(tx) {
            Some(rec) => *rec,
            None => return Err(TxError::UnknownTx { tx }),
        };
        if record.client != client {
            return Err(TxError::ClientMismatch { tx, owner: record.client, claimed: client });
        }
        Ok(record)
    }

    /// The client's balances, or the default ones if it has no account yet.
    fn balances_of(&self, client: ClientId) -> (a: Account)
        ensures
            a == account_or_default(self.store@.accounts, client),
    {
        match self.store.get_account(client) {
            Some(acct) => *acct,
            None => Account::default(),
        }
    }

    fn dispute(&mut self, client: ClientId, tx: TxId) -> (r: Result<(), TxError>)
        ensures
            final(self).store@ == dispute_outcome(old(self).store@, client, tx).0,
            r == dispute_outcome(old(self).store@, client, tx).1,
    {
        let record = match self.owned_deposit(client, tx) {
            Ok(rec) => rec,
            Err(e) => return Err(e),
        };
        match record.state {
            DepositState::Posted => {},
            _ => return Err(TxError::NotDisputable { tx }),
        }
        let account = self.balances_of(client);
        let available = match account.available.checked_sub(record.amount) {
            Some(v) => v,
            None => return Err(TxError::BalanceOverflow { tx }),
        };
        let held = match account.held.checked_add(record.amount) {
            Some(v) => v,
            None => return Err(TxError::BalanceOverflow { tx }),
        };
        self.store.insert_deposit(tx, DepositRecord { state: DepositState::Disputed, ..record });
        let acct = self.store.account_or_create(client);
        acct.available = available;
        acct.held = held;
        Ok(())
    }

    fn resolve(&mut self, client: ClientId, tx: TxId) -> (r: Result<(), TxError>)
        ensures
            final(self).store@ == resolve_outcome(old(self).store@, client, tx).0,
            r == resolve_outcome(old(self).store@, client, tx).1,
    {
        let record = match self.owned_deposit(client, tx) {
            Ok(rec) => rec,
            Err(e) => return Err(e),
        };
        match record.state {
            DepositState::Disputed => {},
            _ => return Err(TxError::NotUnderDispute { tx }),
        }
        let account = self.balances_of(client);
        let available = match account.available.checked_add(record.amount) {
            Some(v) => v,
            None => return Err(TxError::BalanceOverflow { tx }),
        };
        let held = match account.held.checked_sub(record.amount) {
            Some(v) => v,
            None => return Err(TxError::BalanceOverflow { tx }),
        };
        self.store.insert_deposit(tx, DepositRecord { state: DepositState::Posted, ..record });
        let acct = self.store.account_or_create(client);
        acct.available = available;
        acct.held = held;
        Ok(())
    }

    fn chargeback(&mut self, client: ClientId, tx: TxId) -> (r: Result<(), TxError>)
        ensures
            final(self).store@ == chargeback_outcome(old(self).store@, client, tx).0,
            r == chargeback_outcome(old(self).store@, client, tx).1,
    {
        let record = match self.owned_deposit(client, tx) {
            Ok(rec) => rec,
            Err(e) => return Err(e),
        };
        match record.state {
            DepositState::Disputed => {},
            _ => return Err(TxError::NotUnderDispute { tx }),
        }
        let account = self.balances_of(client);
        let held = match account.held.checked_sub(record.amount) {
            Some(v) => v,
            None => return Err(TxError::BalanceOverflow { tx }),
        };
        self.store.insert_deposit(tx, DepositRecord { state: DepositState::ChargedBack, ..record });
        let acct = self.store.account_or_create(client);
        acct.held = held;
        acct.locked = true;
        Ok(())
    }
}

} // verus!
