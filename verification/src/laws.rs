//! Properties of the engine that span transactions: the invariant that every
//! reachable state keeps (held funds are exactly the amounts under dispute,
//! hence never negative), what a rejection leaves untouched, what a resolve
//! undoes, and which facts no transaction can revert.

use crate::amount::{
    aligned_difference, aligned_sum, common_scale, fits_mantissa, lemma_exact_when_fits, lemma_mantissa_at_nonneg,
    lemma_value_sign, mantissa_at, pow10, Amount,
};
use crate::engine::{process_outcome, touch_account, with_balances};
use crate::io::{ascii_lowercase, record_transaction, row_of, CsvRecord};
use crate::amount::rounded_amount;
use crate::model::{default_account, Account, ClientId, DepositRecord, DepositState, Transaction, TxError, TxId};
use crate::store::{account_or_default, StoreView};
use vstd::prelude::*;

verus! {

/// What deposit `r` contributes to the held funds of `client`: the value of
/// its amount if it is the client's and under dispute, else nothing.
pub open spec fn disputed_amount(r: DepositRecord, client: ClientId) -> int {
    if r.client == client && r.state == DepositState::Disputed {
        r.amount.value()
    } else {
        0
    }
}

/// Sum of `disputed_amount` over the deposits whose ids are in `keys`.
pub open spec fn sum_disputed(deposits: Map<TxId, DepositRecord>, keys: Set<TxId>, client: ClientId) -> int
    decreases keys.len(),
    when keys.finite()
{
    if keys.len() == 0 {
        0
    } else {
        let k = keys.choose();
        disputed_amount(deposits[k], client) + sum_disputed(deposits, keys.remove(k), client)
    }
}

/// The amounts of all of the client's deposits that are under dispute.
pub open spec fn disputed_total(deposits: Map<TxId, DepositRecord>, client: ClientId) -> int {
    sum_disputed(deposits, deposits.dom(), client)
}

proof fn lemma_sum_remove(deposits: Map<TxId, DepositRecord>, keys: Set<TxId>, client: ClientId, x: TxId)
    requires
        keys.finite(),
        keys.contains(x),
    ensures
        sum_disputed(deposits, keys, client) == disputed_amount(deposits[x], client) + sum_disputed(
            deposits,
            keys.remove(x),
            client,
        ),
    decreases keys.len(),
{
    let k = keys.choose();
    if k != x {
        lemma_sum_remove(deposits, keys.remove(k), client, x);
        lemma_sum_remove(deposits, keys.remove(x), client, k);
        assert(keys.remove(k).remove(x) =~= keys.remove(x).remove(k));
    }
}

proof fn lemma_sum_congruent(
    d1: Map<TxId, DepositRecord>,
    d2: Map<TxId, DepositRecord>,
    keys: Set<TxId>,
    client: ClientId,
)
    requires
        keys.finite(),
        forall|k: TxId| #[trigger] keys.contains(k) ==> disputed_amount(d1[k], client) == disputed_amount(d2[k], client),
    ensures
        sum_disputed(d1, keys, client) == sum_disputed(d2, keys, client),
    decreases keys.len(),
{
    if keys.len() > 0 {
        let k = keys.choose();
        lemma_sum_congruent(d1, d2, keys.remove(k), client);
    }
}

proof fn lemma_sum_bounds(deposits: Map<TxId, DepositRecord>, keys: Set<TxId>, client: ClientId)
    requires
        keys.finite(),
    ensures
        (forall|k: TxId| #[trigger] keys.contains(k) ==> disputed_amount(deposits[k], client) >= 0)
            ==> sum_disputed(deposits, keys, client) >= 0,
        (forall|k: TxId| #[trigger] keys.contains(k) ==> disputed_amount(deposits[k], client) == 0)
            ==> sum_disputed(deposits, keys, client) == 0,
    decreases keys.len(),
{
    if keys.len() > 0 {
        let k = keys.choose();
        lemma_sum_bounds(deposits, keys.remove(k), client);
    }
}

/// How the disputed total of a client changes when one record is stored.
proof fn lemma_total_after_insert(deposits: Map<TxId, DepositRecord>, x: TxId, r: DepositRecord, client: ClientId)
    requires
        deposits.dom().finite(),
    ensures
        disputed_total(deposits.insert(x, r), client) == disputed_total(deposits, client)
            - (if deposits.contains_key(x) { disputed_amount(deposits[x], client) } else { 0 })
            + disputed_amount(r, client),
{
    let d2 = deposits.insert(x, r);
    let rest = deposits.dom().remove(x);
    assert(d2.dom().remove(x) =~= rest);
    lemma_sum_remove(d2, d2.dom(), client, x);
    lemma_sum_congruent(d2, deposits, rest, client);
    if deposits.contains_key(x) {
        lemma_sum_remove(deposits, deposits.dom(), client, x);
    } else {
        assert(rest =~= deposits.dom());
    }
}

/// The invariant of every state the engine reaches from an empty store by
/// steps whose held funds are computed exactly: every stored deposit has a
/// positive amount and an owner with an account, and every account's held
/// funds equal, in value, the amounts of its deposits under dispute.
pub open spec fn engine_invariant(s: StoreView) -> bool {
    &&& s.deposits.dom().finite()
    &&& forall|tx: TxId| #[trigger] s.deposits.contains_key(tx) ==> {
        &&& s.deposits[tx].amount.mantissa > 0
        &&& s.accounts.contains_key(s.deposits[tx].client)
    }
    &&& forall|c: ClientId| #[trigger] s.accounts.contains_key(c)
        ==> s.accounts[c].held.value() == disputed_total(s.deposits, c)
}

/// The held funds that transaction `t` computes from `s` fit 96 bits at the
/// larger scale of the two operands, so rust_decimal computes them without
/// rounding.
pub open spec fn held_change_fits(s: StoreView, t: Transaction) -> bool {
    match t {
        Transaction::Dispute { client, tx } => s.deposits.contains_key(tx) ==> fits_mantissa(
            aligned_sum(account_or_default(s.accounts, client).held, s.deposits[tx].amount),
        ),
        Transaction::Resolve { client, tx } => s.deposits.contains_key(tx) ==> fits_mantissa(
            aligned_difference(account_or_default(s.accounts, client).held, s.deposits[tx].amount),
        ),
        Transaction::Chargeback { client, tx } => s.deposits.contains_key(tx) ==> fits_mantissa(
            aligned_difference(account_or_default(s.accounts, client).held, s.deposits[tx].amount),
        ),
        _ => true,
    }
}

/// An empty store satisfies the invariant.
pub proof fn lemma_empty_store_satisfies_invariant()
    ensures
        engine_invariant(
            StoreView {
                accounts: Map::<ClientId, Account>::empty(),
                deposits: Map::<TxId, DepositRecord>::empty(),
            },
        ),
{
}

/// Held funds are never negative: in a state satisfying the invariant every
/// account's held funds are the sum of positive amounts.
pub proof fn lemma_held_never_negative(s: StoreView, client: ClientId)
    requires
        engine_invariant(s),
        s.accounts.contains_key(client),
    ensures
        s.accounts[client].held.value() >= 0,
{
    assert forall|k: TxId| #[trigger] s.deposits.dom().contains(k) implies disputed_amount(
        s.deposits[k],
        client,
    ) >= 0 by {
        lemma_value_sign(s.deposits[k].amount);
    }
    lemma_sum_bounds(s.deposits, s.deposits.dom(), client);
}

/// Creating the client's account, if it has none, keeps the invariant.
proof fn lemma_account_exists(s: StoreView, client: ClientId)
    requires
        engine_invariant(s),
    ensures
        engine_invariant(touch_account(s, client)),
        touch_account(s, client).accounts.contains_key(client),
        touch_account(s, client).accounts[client] == account_or_default(s.accounts, client),
        touch_account(s, client).deposits == s.deposits,
        account_or_default(s.accounts, client).held.value() == disputed_total(s.deposits, client),
{
    let t = touch_account(s, client);
    if !s.accounts.contains_key(client) {
        assert forall|k: TxId| #[trigger] s.deposits.dom().contains(k) implies disputed_amount(
            s.deposits[k],
            client,
        ) == 0 by {
            assert(s.accounts.contains_key(s.deposits[k].client));
        }
        lemma_sum_bounds(s.deposits, s.deposits.dom(), client);
        assert(account_or_default(s.accounts, client) == default_account());
        lemma_value_sign(default_account().held);
        assert forall|c: ClientId| #[trigger] t.accounts.contains_key(c) implies t.accounts[c].held.value()
            == disputed_total(t.deposits, c) by {
            if c != client {
                assert(s.accounts.contains_key(c));
            }
        }
    } else {
        assert(s.accounts.contains_key(client));
        assert(t.accounts =~= s.accounts);
    }
}

/// Storing record `r` under `tx` and giving `client` the account `a` keeps the
/// invariant when `a` holds exactly the client's new disputed total, the
/// record's owner is `client` with a positive amount, and no other client's
/// disputed total changes.
proof fn lemma_update_keeps_invariant(s: StoreView, client: ClientId, a: Account, tx: TxId, r: DepositRecord)
    requires
        engine_invariant(s),
        s.accounts.contains_key(client),
        r.client == client,
        r.amount.mantissa > 0,
        !s.deposits.contains_key(tx) || s.deposits[tx].client == client,
        a.held.value() == disputed_total(s.deposits, client)
            - (if s.deposits.contains_key(tx) { disputed_amount(s.deposits[tx], client) } else { 0 })
            + disputed_amount(r, client),
    ensures
        engine_invariant(StoreView { accounts: s.accounts.insert(client, a), deposits: s.deposits.insert(tx, r) }),
{
    let t = StoreView { accounts: s.accounts.insert(client, a), deposits: s.deposits.insert(tx, r) };
    assert forall|c: ClientId| #[trigger] t.accounts.contains_key(c) implies t.accounts[c].held.value()
        == disputed_total(t.deposits, c) by {
        lemma_total_after_insert(s.deposits, tx, r, c);
    }
}

/// Processing any transaction whose held funds rust_decimal computes without
/// rounding, from a state satisfying the invariant, yields a state
/// satisfying it.
pub proof fn lemma_process_keeps_invariant(s: StoreView, t: Transaction)
    requires
        engine_invariant(s),
        held_change_fits(s, t),
    ensures
        engine_invariant(process_outcome(s, t).0),
{
    match t {
        Transaction::Deposit { client, tx, amount } => {
            lemma_account_exists(s, client);
            let s1 = touch_account(s, client);
            if process_outcome(s, t).1 is Ok {
                let a = account_or_default(s.accounts, client);
                let r = DepositRecord { client, amount, state: DepositState::Posted };
                let a2 = with_balances(a, Amount::sum(a.available, amount).unwrap(), a.held);
                lemma_update_keeps_invariant(s1, client, a2, tx, r);
                assert(s1.accounts.insert(client, a2) =~= process_outcome(s, t).0.accounts);
            }
        },
        Transaction::Withdraw { client, tx, amount } => {
            lemma_account_exists(s, client);
            let s1 = touch_account(s, client);
            if process_outcome(s, t).1 is Ok {
                let out = process_outcome(s, t).0;
                assert(out.accounts =~= s1.accounts.insert(client, out.accounts[client]));
                assert forall|c: ClientId| #[trigger] out.accounts.contains_key(c) implies out.accounts[c].held.value()
                    == disputed_total(out.deposits, c) by {
                    if c != client {
                        assert(s1.accounts.contains_key(c));
                    }
                }
            }
        },
        Transaction::Dispute { client, tx } => {
            if process_outcome(s, t).1 is Ok {
                let r = s.deposits[tx];
                let a = s.accounts[client];
                lemma_exact_when_fits(a.held, r.amount);
                let r2 = DepositRecord { state: DepositState::Disputed, ..r };
                let a2 = with_balances(
                    a,
                    Amount::difference(a.available, r.amount).unwrap(),
                    Amount::sum(a.held, r.amount).unwrap(),
                );
                lemma_update_keeps_invariant(s, client, a2, tx, r2);
            }
        },
        Transaction::Resolve { client, tx } => {
            if process_outcome(s, t).1 is Ok {
                let r = s.deposits[tx];
                let a = s.accounts[client];
                lemma_exact_when_fits(a.held, r.amount);
                let r2 = DepositRecord { state: DepositState::Posted, ..r };
                let a2 = with_balances(
                    a,
                    Amount::sum(a.available, r.amount).unwrap(),
                    Amount::difference(a.held, r.amount).unwrap(),
                );
                lemma_update_keeps_invariant(s, client, a2, tx, r2);
            }
        },
        Transaction::Chargeback { client, tx } => {
            if process_outcome(s, t).1 is Ok {
                let r = s.deposits[tx];
                let a = s.accounts[client];
                lemma_exact_when_fits(a.held, r.amount);
                let r2 = DepositRecord { state: DepositState::ChargedBack, ..r };
                let a2 = Account { held: Amount::difference(a.held, r.amount).unwrap(), locked: true, ..a };
                lemma_update_keeps_invariant(s, client, a2, tx, r2);
            }
        },
    }
}

/// The client a transaction names.
pub open spec fn client_of(t: Transaction) -> ClientId {
    match t {
        Transaction::Deposit { client, .. } => client,
        Transaction::Withdraw { client, .. } => client,
        Transaction::Dispute { client, .. } => client,
        Transaction::Resolve { client, .. } => client,
        Transaction::Chargeback { client, .. } => client,
    }
}

/// A rejected transaction leaves balances and deposit records untouched: a
/// rejected dispute, resolve or chargeback changes nothing, and a rejected
/// deposit or withdrawal at most creates the client's zeroed account.
pub proof fn lemma_rejection_leaves_state_untouched(s: StoreView, t: Transaction)
    requires
        process_outcome(s, t).1 is Err,
    ensures
        process_outcome(s, t).0 == (match t {
            Transaction::Deposit { client, .. } => touch_account(s, client),
            Transaction::Withdraw { client, .. } => touch_account(s, client),
            _ => s,
        }),
{
}

/// A deposit or withdrawal, accepted or not, leaves its client with an
/// account; in a state satisfying the invariant a dispute, resolve or
/// chargeback never creates an account.
pub proof fn lemma_which_transactions_create_accounts(s: StoreView, t: Transaction)
    ensures
        (t is Deposit || t is Withdraw) ==> process_outcome(s, t).0.accounts.contains_key(client_of(t)),
        engine_invariant(s) && !(t is Deposit || t is Withdraw) ==> process_outcome(s, t).0.accounts.dom()
            == s.accounts.dom(),
{
    if engine_invariant(s) && !(t is Deposit || t is Withdraw) && process_outcome(s, t).1 is Ok {
        let client = client_of(t);
        assert(process_outcome(s, t).0.accounts.dom() =~= s.accounts.dom());
    }
}

/// What no transaction reverts: accounts are never removed and a locked
/// account stays locked; stored deposits are never removed and keep their
/// owner and amount; a charged-back deposit stays charged back.
pub proof fn lemma_permanent_facts(s: StoreView, t: Transaction)
    ensures
        forall|c: ClientId| #[trigger] s.accounts.contains_key(c) ==> {
            &&& process_outcome(s, t).0.accounts.contains_key(c)
            &&& s.accounts[c].locked ==> process_outcome(s, t).0.accounts[c].locked
        },
        forall|x: TxId| #[trigger] s.deposits.contains_key(x) ==> {
            &&& process_outcome(s, t).0.deposits.contains_key(x)
            &&& process_outcome(s, t).0.deposits[x].client == s.deposits[x].client
            &&& process_outcome(s, t).0.deposits[x].amount == s.deposits[x].amount
            &&& s.deposits[x].state == DepositState::ChargedBack
                ==> process_outcome(s, t).0.deposits[x].state == DepositState::ChargedBack
        },
{
}

/// A locked account refuses new deposits and withdrawals, whatever their amount.
pub proof fn lemma_locked_account_refuses_new_funds(s: StoreView, t: Transaction)
    requires
        t is Deposit || t is Withdraw,
        s.accounts.contains_key(client_of(t)),
        s.accounts[client_of(t)].locked,
    ensures
        process_outcome(s, t).1 == Err::<(), TxError>(TxError::AccountLocked { client: client_of(t) }),
        process_outcome(s, t).0 == s,
{
    assert(touch_account(s, client_of(t)).accounts =~= s.accounts);
}

/// Accepted transactions move money as documented, with rust_decimal's
/// arithmetic; only the named client's account changes. A deposit adds its
/// amount to the available funds and a withdrawal takes it away; a dispute
/// moves the deposit's amount from available to held and a resolve moves it
/// back; a chargeback removes it from the held funds and locks the account.
pub proof fn lemma_accepted_transaction_effects(s: StoreView, t: Transaction)
    requires
        engine_invariant(s),
        process_outcome(s, t).1 is Ok,
    ensures
        ({
            let out = process_outcome(s, t).0;
            let c = client_of(t);
            let before = account_or_default(s.accounts, c);
            let after = out.accounts[c];
            &&& out.accounts.contains_key(c)
            &&& forall|o: ClientId| o != c ==> (#[trigger] out.accounts.contains_key(o) == s.accounts.contains_key(o)
                && (s.accounts.contains_key(o) ==> out.accounts[o] == s.accounts[o]))
            &&& match t {
                Transaction::Deposit { amount, .. } => {
                    &&& Some(after.available) == Amount::sum(before.available, amount)
                    &&& after.held == before.held
                    &&& after.locked == before.locked
                },
                Transaction::Withdraw { amount, .. } => {
                    &&& Some(after.available) == Amount::difference(before.available, amount)
                    &&& after.held == before.held
                    &&& after.locked == before.locked
                },
                Transaction::Dispute { tx, .. } => {
                    &&& Some(after.available) == Amount::difference(before.available, s.deposits[tx].amount)
                    &&& Some(after.held) == Amount::sum(before.held, s.deposits[tx].amount)
                    &&& after.locked == before.locked
                },
                Transaction::Resolve { tx, .. } => {
                    &&& Some(after.available) == Amount::sum(before.available, s.deposits[tx].amount)
                    &&& Some(after.held) == Amount::difference(before.held, s.deposits[tx].amount)
                    &&& after.locked == before.locked
                },
                Transaction::Chargeback { tx, .. } => {
                    &&& after.available == before.available
                    &&& Some(after.held) == Amount::difference(before.held, s.deposits[tx].amount)
                    &&& after.locked
                },
            }
        }),
{
}

/// A resolve undoes a dispute: from a state satisfying the invariant, an
/// accepted dispute followed by the resolve of the same deposit is accepted
/// and restores every deposit record, every other account, and the client's
/// balances in value, whenever rust_decimal moves the amount without
/// rounding: the new available and held funds of the dispute, and the
/// available funds of the resolve, fit 96 bits at the larger scale (the held
/// funds of the resolve then fit too).
pub proof fn lemma_resolve_undoes_dispute(s: StoreView, client: ClientId, tx: TxId)
    requires
        engine_invariant(s),
        process_outcome(s, Transaction::Dispute { client, tx }).1 is Ok,
        ({
            let a = s.accounts[client];
            let amount = s.deposits[tx].amount;
            &&& fits_mantissa(aligned_difference(a.available, amount))
            &&& fits_mantissa(aligned_sum(a.held, amount))
            &&& fits_mantissa(aligned_sum(Amount::difference(a.available, amount).unwrap(), amount))
        }),
    ensures
        ({
            let mid = process_outcome(s, Transaction::Dispute { client, tx }).0;
            let end = process_outcome(mid, Transaction::Resolve { client, tx });
            &&& end.1 is Ok
            &&& end.0.deposits == s.deposits
            &&& end.0.accounts.dom() == s.accounts.dom()
            &&& forall|c: ClientId| #[trigger] s.accounts.contains_key(c) && c != client
                ==> end.0.accounts[c] == s.accounts[c]
            &&& end.0.accounts[client].available.value() == s.accounts[client].available.value()
            &&& end.0.accounts[client].held.value() == s.accounts[client].held.value()
            &&& end.0.accounts[client].locked == s.accounts[client].locked
        }),
{
    assert(s.deposits.contains_key(tx));
    assert(s.accounts.contains_key(client));
    let a = s.accounts[client];
    let amount = s.deposits[tx].amount;
    lemma_exact_when_fits(a.available, amount);
    lemma_exact_when_fits(a.held, amount);
    let available1 = Amount::difference(a.available, amount).unwrap();
    let held1 = Amount::sum(a.held, amount).unwrap();
    lemma_exact_when_fits(available1, amount);
    lemma_held_never_negative(s, client);
    lemma_value_sign(a.held);
    lemma_value_sign(amount);
    if a.held.mantissa != 0 {
        let c = common_scale(a.held, amount);
        lemma_mantissa_at_nonneg(a.held, c);
        lemma_mantissa_at_nonneg(amount, c);
        assert(held1.scale == c);
        assert(common_scale(held1, amount) == c);
        assert(pow10(0) == 1);
        assert(mantissa_at(held1, c) == held1.mantissa);
        assert(aligned_difference(held1, amount) == mantissa_at(a.held, c));
    } else {
        assert(held1 == amount);
        assert(aligned_difference(held1, amount) == 0);
    }
    lemma_exact_when_fits(held1, amount);
    let mid = process_outcome(s, Transaction::Dispute { client, tx }).0;
    let end = process_outcome(mid, Transaction::Resolve { client, tx }).0;
    assert(end.accounts.dom() =~= s.accounts.dom());
    assert(end.deposits =~= s.deposits);
}

/// The tx id a transaction names.
pub open spec fn tx_of(t: Transaction) -> TxId {
    match t {
        Transaction::Deposit { tx, .. } => tx,
        Transaction::Withdraw { tx, .. } => tx,
        Transaction::Dispute { tx, .. } => tx,
        Transaction::Resolve { tx, .. } => tx,
        Transaction::Chargeback { tx, .. } => tx,
    }
}

/// A transaction changes at most the account of the client it names and the
/// deposit record of the tx id it names.
pub proof fn lemma_transaction_writes_only_its_client_and_tx(s: StoreView, t: Transaction)
    ensures
        forall|c: ClientId| c != client_of(t) ==> #[trigger] process_outcome(s, t).0.accounts.get(c)
            == s.accounts.get(c),
        forall|x: TxId| x != tx_of(t) ==> #[trigger] process_outcome(s, t).0.deposits.get(x)
            == s.deposits.get(x),
{
}

/// A transaction reads only the account of the client it names and the
/// deposit record of the tx id it names: two states that agree there give the
/// same answer and the same new account and record.
pub proof fn lemma_transaction_reads_only_its_client_and_tx(s1: StoreView, s2: StoreView, t: Transaction)
    requires
        s1.accounts.get(client_of(t)) == s2.accounts.get(client_of(t)),
        s1.deposits.get(tx_of(t)) == s2.deposits.get(tx_of(t)),
    ensures
        process_outcome(s1, t).1 == process_outcome(s2, t).1,
        process_outcome(s1, t).0.accounts.get(client_of(t)) == process_outcome(s2, t).0.accounts.get(
            client_of(t),
        ),
        process_outcome(s1, t).0.deposits.get(tx_of(t)) == process_outcome(s2, t).0.deposits.get(
            tx_of(t),
        ),
{
    let c = client_of(t);
    let x = tx_of(t);
    assert(s1.accounts.contains_key(c) == s2.accounts.contains_key(c));
    assert(s1.deposits.contains_key(x) == s2.deposits.contains_key(x));
    assert(account_or_default(s1.accounts, c) == account_or_default(s2.accounts, c));
    if s1.deposits.contains_key(x) {
        assert(s1.deposits[x] == s2.deposits[x]);
    }
}

/// Clients are independent: two transactions naming different clients and
/// different tx ids give the same answers and the same final state in either
/// order, so only the order within each client matters.
pub proof fn lemma_transactions_of_different_clients_commute(s: StoreView, t1: Transaction, t2: Transaction)
    requires
        client_of(t1) != client_of(t2),
        tx_of(t1) != tx_of(t2),
    ensures
        ({
            let first = process_outcome(s, t1);
            let then = process_outcome(first.0, t2);
            let other_first = process_outcome(s, t2);
            let other_then = process_outcome(other_first.0, t1);
            &&& then.1 == other_first.1
            &&& other_then.1 == first.1
            &&& then.0 == other_then.0
        }),
{
    let a = process_outcome(s, t1).0;
    let b = process_outcome(s, t2).0;
    let ab = process_outcome(a, t2).0;
    let ba = process_outcome(b, t1).0;
    let (c1, c2, x1, x2) = (client_of(t1), client_of(t2), tx_of(t1), tx_of(t2));
    lemma_transaction_writes_only_its_client_and_tx(s, t1);
    lemma_transaction_writes_only_its_client_and_tx(s, t2);
    lemma_transaction_writes_only_its_client_and_tx(a, t2);
    lemma_transaction_writes_only_its_client_and_tx(b, t1);
    assert(a.accounts.get(c2) == s.accounts.get(c2));
    assert(a.deposits.get(x2) == s.deposits.get(x2));
    assert(b.accounts.get(c1) == s.accounts.get(c1));
    assert(b.deposits.get(x1) == s.deposits.get(x1));
    lemma_transaction_reads_only_its_client_and_tx(s, a, t2);
    lemma_transaction_reads_only_its_client_and_tx(s, b, t1);
    assert forall|k: ClientId| #[trigger] ab.accounts.get(k) == ba.accounts.get(k) by {
        if k == c1 {
            assert(ab.accounts.get(k) == a.accounts.get(k));
        } else if k == c2 {
            assert(ba.accounts.get(k) == b.accounts.get(k));
        } else {
            assert(ab.accounts.get(k) == a.accounts.get(k));
            assert(ba.accounts.get(k) == b.accounts.get(k));
        }
    }
    assert forall|k: TxId| #[trigger] ab.deposits.get(k) == ba.deposits.get(k) by {
        if k == x1 {
            assert(ab.deposits.get(k) == a.deposits.get(k));
        } else if k == x2 {
            assert(ba.deposits.get(k) == b.deposits.get(k));
        } else {
            assert(ab.deposits.get(k) == a.deposits.get(k));
            assert(ba.deposits.get(k) == b.deposits.get(k));
        }
    }
    assert(ab.accounts =~= ba.accounts) by {
        assert forall|k: ClientId| ab.accounts.contains_key(k) == ba.accounts.contains_key(k) by {
            assert(ab.accounts.get(k) == ba.accounts.get(k));
        }
        assert forall|k: ClientId| ab.accounts.contains_key(k) implies ab.accounts[k] == ba.accounts[k] by {
            assert(ab.accounts.get(k) == ba.accounts.get(k));
        }
    }
    assert(ab.deposits =~= ba.deposits) by {
        assert forall|k: TxId| ab.deposits.contains_key(k) == ba.deposits.contains_key(k) by {
            assert(ab.deposits.get(k) == ba.deposits.get(k));
        }
        assert forall|k: TxId| ab.deposits.contains_key(k) implies ab.deposits[k] == ba.deposits[k] by {
            assert(ab.deposits.get(k) == ba.deposits.get(k));
        }
    }
}

/// Withdrawal ids are neither stored nor checked: a withdrawal's effect does
/// not depend on its tx id, no deposit record changes, and its answer does
/// not depend on the id either unless the subtraction overflows (the only
/// answer that names the id).
pub proof fn lemma_withdrawal_ignores_its_tx_id(s: StoreView, client: ClientId, t1: TxId, t2: TxId, amount: Amount)
    ensures
        process_outcome(s, Transaction::Withdraw { client, tx: t1, amount }).0
            == process_outcome(s, Transaction::Withdraw { client, tx: t2, amount }).0,
        process_outcome(s, Transaction::Withdraw { client, tx: t1, amount }).0.deposits == s.deposits,
        !(process_outcome(s, Transaction::Withdraw { client, tx: t1, amount }).1 is Err
            && process_outcome(s, Transaction::Withdraw { client, tx: t1, amount }).1->Err_0 is BalanceOverflow)
            ==> process_outcome(s, Transaction::Withdraw { client, tx: t1, amount }).1
                == process_outcome(s, Transaction::Withdraw { client, tx: t2, amount }).1,
{
}

/// A withdrawal never spends more than the available funds, whatever is
/// held: an accepted withdrawal had an amount at most the available funds,
/// by value; and on an unlocked account a positive amount larger than the
/// available funds is refused as insufficient, naming both, with balances
/// and deposit records untouched.
pub proof fn lemma_withdrawal_bounded_by_available(s: StoreView, client: ClientId, tx: TxId, amount: Amount)
    ensures
        ({
            let before = account_or_default(s.accounts, client);
            let out = process_outcome(s, Transaction::Withdraw { client, tx, amount });
            &&& out.1 is Ok ==> {
                &&& amount.wf()
                &&& before.available.wf()
                &&& 0 < amount.value() <= before.available.value()
                &&& out.0.accounts[client].held == before.held
            }
            &&& (!before.locked && amount.mantissa > 0 && amount.wf() && before.available.wf()
                && before.available.value() < amount.value()) ==> {
                &&& out.1 == Err::<(), TxError>(
                    TxError::InsufficientFunds { available: before.available, requested: amount },
                )
                &&& out.0 == touch_account(s, client)
            }
        }),
{
    lemma_value_sign(amount);
}

/// The first deposit with a tx id wins: a later deposit with the same id on
/// an unlocked account, with a positive amount, is refused as a duplicate
/// whatever the stored record holds, and leaves balances and deposit records
/// untouched; and an accepted deposit used a fresh id and stores exactly its
/// own client and amount, `Posted`.
pub proof fn lemma_first_deposit_wins(s: StoreView, client: ClientId, tx: TxId, amount: Amount)
    ensures
        ({
            let before = account_or_default(s.accounts, client);
            let out = process_outcome(s, Transaction::Deposit { client, tx, amount });
            &&& (s.deposits.contains_key(tx) && !before.locked && amount.mantissa > 0) ==> {
                &&& out.1 == Err::<(), TxError>(TxError::DuplicateTx { tx })
                &&& out.0 == touch_account(s, client)
                &&& out.0.deposits[tx] == s.deposits[tx]
            }
            &&& out.1 is Ok ==> {
                &&& !s.deposits.contains_key(tx)
                &&& out.0.deposits[tx] == (DepositRecord { client, amount, state: DepositState::Posted })
            }
        }),
{
}

/// A dispute never depends on the lock flag or on the held funds being
/// non-zero: its only rejections are an unknown tx id, another client's
/// deposit, a deposit that is not `Posted`, and an overflow. A `Posted`
/// deposit of the claiming client whose amount moves from available to held
/// without rounding is accepted: it becomes `Disputed` and the amount moves.
pub proof fn lemma_dispute_rejections(s: StoreView, client: ClientId, tx: TxId)
    ensures
        match process_outcome(s, Transaction::Dispute { client, tx }).1 {
            Err(e) => e is UnknownTx || e is ClientMismatch || e is NotDisputable || e is BalanceOverflow,
            Ok(_) => true,
        },
        ({
            let a = account_or_default(s.accounts, client);
            let out = process_outcome(s, Transaction::Dispute { client, tx });
            (s.deposits.contains_key(tx) && s.deposits[tx].client == client
                && s.deposits[tx].state == DepositState::Posted && a.available.wf() && a.held.wf()
                && s.deposits[tx].amount.wf()
                && fits_mantissa(aligned_difference(a.available, s.deposits[tx].amount))
                && fits_mantissa(aligned_sum(a.held, s.deposits[tx].amount))) ==> {
                &&& out.1 is Ok
                &&& out.0.deposits[tx].state == DepositState::Disputed
                &&& out.0.accounts[client].available.value() == a.available.value()
                    - s.deposits[tx].amount.value()
                &&& out.0.accounts[client].held.value() == a.held.value() + s.deposits[tx].amount.value()
                &&& out.0.accounts[client].locked == a.locked
            }
        }),
{
    if s.deposits.contains_key(tx) && s.deposits[tx].client == client {
        let a = account_or_default(s.accounts, client);
        let amount = s.deposits[tx].amount;
        if a.available.wf() && a.held.wf() && amount.wf() {
            lemma_exact_when_fits(a.available, amount);
            lemma_exact_when_fits(a.held, amount);
        }
    }
}

/// A chargeback never depends on the lock flag: its only rejections are an
/// unknown tx id, another client's deposit, a deposit with no open dispute,
/// and an overflow. A `Disputed` deposit of the claiming client whose amount
/// leaves the held funds without rounding is charged back, on a locked
/// account too: the held funds drop by it, the account is locked and the
/// deposit becomes `ChargedBack`.
pub proof fn lemma_chargeback_rejections(s: StoreView, client: ClientId, tx: TxId)
    ensures
        match process_outcome(s, Transaction::Chargeback { client, tx }).1 {
            Err(e) => e is UnknownTx || e is ClientMismatch || e is NotUnderDispute || e is BalanceOverflow,
            Ok(_) => true,
        },
        ({
            let a = account_or_default(s.accounts, client);
            let out = process_outcome(s, Transaction::Chargeback { client, tx });
            (s.deposits.contains_key(tx) && s.deposits[tx].client == client
                && s.deposits[tx].state == DepositState::Disputed && a.held.wf()
                && s.deposits[tx].amount.wf()
                && fits_mantissa(aligned_difference(a.held, s.deposits[tx].amount))) ==> {
                &&& out.1 is Ok
                &&& out.0.deposits[tx].state == DepositState::ChargedBack
                &&& out.0.accounts[client].held.value() == a.held.value() - s.deposits[tx].amount.value()
                &&& out.0.accounts[client].available == a.available
                &&& out.0.accounts[client].locked
            }
        }),
{
    if s.deposits.contains_key(tx) && s.deposits[tx].client == client {
        let a = account_or_default(s.accounts, client);
        let amount = s.deposits[tx].amount;
        if a.held.wf() && amount.wf() {
            lemma_exact_when_fits(a.held, amount);
        }
    }
}

/// A resolve never depends on the lock flag: its only rejections are an
/// unknown tx id, another client's deposit, a deposit with no open dispute,
/// and an overflow.
pub proof fn lemma_resolve_rejections(s: StoreView, client: ClientId, tx: TxId)
    ensures
        match process_outcome(s, Transaction::Resolve { client, tx }).1 {
            Err(e) => e is UnknownTx || e is ClientMismatch || e is NotUnderDispute || e is BalanceOverflow,
            Ok(_) => true,
        },
{
}

/// A row converts to a transaction with the row's own client and tx id; its
/// kind is the one the lowercased type column names, and a deposit or
/// withdrawal carries the row's amount rounded to four places. Every row
/// whose lowercased type is a dispute, resolve or chargeback converts.
pub proof fn lemma_conversion_keeps_the_row(record: CsvRecord)
    ensures
        match record_transaction(record) {
            Some(Transaction::Deposit { client, tx, amount }) => {
                &&& client == record.client && tx == record.tx
                &&& ascii_lowercase(record.kind@) == "deposit"@
                &&& record.amount is Some && rounded_amount(record.amount.unwrap()) == Some(amount)
            },
            Some(Transaction::Withdraw { client, tx, amount }) => {
                &&& client == record.client && tx == record.tx
                &&& ascii_lowercase(record.kind@) == "withdrawal"@
                &&& record.amount is Some && rounded_amount(record.amount.unwrap()) == Some(amount)
            },
            Some(Transaction::Dispute { client, tx }) => client == record.client && tx == record.tx
                && ascii_lowercase(record.kind@) == "dispute"@,
            Some(Transaction::Resolve { client, tx }) => client == record.client && tx == record.tx
                && ascii_lowercase(record.kind@) == "resolve"@,
            Some(Transaction::Chargeback { client, tx }) => client == record.client && tx == record.tx
                && ascii_lowercase(record.kind@) == "chargeback"@,
            None => true,
        },
        record_transaction(record) matches Some(t) ==> client_of(t) == record.client && tx_of(t) == record.tx,
        (ascii_lowercase(record.kind@) == "dispute"@ || ascii_lowercase(record.kind@) == "resolve"@
            || ascii_lowercase(record.kind@) == "chargeback"@) ==> record_transaction(record) is Some,
        ((ascii_lowercase(record.kind@) == "deposit"@ || ascii_lowercase(record.kind@) == "withdrawal"@)
            && record.amount is Some && record.amount.unwrap().wf()) ==> record_transaction(record) is Some,
        (ascii_lowercase(record.kind@) != "deposit"@ && ascii_lowercase(record.kind@) != "withdrawal"@
            && ascii_lowercase(record.kind@) != "dispute"@ && ascii_lowercase(record.kind@) != "resolve"@
            && ascii_lowercase(record.kind@) != "chargeback"@) ==> record_transaction(record) is None,
{
    reveal_strlit("deposit");
    reveal_strlit("withdrawal");
    reveal_strlit("dispute");
    reveal_strlit("resolve");
    reveal_strlit("chargeback");
    assert("dispute"@[1] != "deposit"@[1]);
    assert("resolve"@[0] != "deposit"@[0]);
    assert("chargeback"@[0] != "withdrawal"@[0]);
    assert("dispute"@.len() != "withdrawal"@.len());
    assert("resolve"@.len() != "withdrawal"@.len());
    assert("chargeback"@.len() != "deposit"@.len());
}

/// When a deposit is accepted and what it does: a locked account refuses
/// it, then a zero or negative amount is refused; a positive amount with a
/// fresh tx id on an unlocked account is accepted whenever rust_decimal adds
/// it without rounding, and then the available funds grow by the amount, the
/// held funds and the lock flag stay, and the deposit is stored `Posted`
/// beside the other deposits.
pub proof fn lemma_deposit_effect(s: StoreView, client: ClientId, tx: TxId, amount: Amount)
    ensures
        ({
            let before = account_or_default(s.accounts, client);
            let out = process_outcome(s, Transaction::Deposit { client, tx, amount });
            &&& before.locked ==> out.1 == Err::<(), TxError>(TxError::AccountLocked { client })
            &&& (!before.locked && amount.mantissa <= 0) ==> out.1 == Err::<(), TxError>(
                TxError::NonPositiveAmount { amount },
            )
            &&& (!before.locked && amount.mantissa > 0 && !s.deposits.contains_key(tx) && amount.wf()
                && before.available.wf() && fits_mantissa(aligned_sum(before.available, amount))) ==> {
                &&& out.1 is Ok
                &&& out.0.accounts[client].available.value() == before.available.value() + amount.value()
                &&& out.0.accounts[client].held == before.held
                &&& out.0.accounts[client].locked == before.locked
                &&& out.0.deposits == s.deposits.insert(
                    tx,
                    DepositRecord { client, amount, state: DepositState::Posted },
                )
            }
        }),
{
    let before = account_or_default(s.accounts, client);
    if amount.wf() && before.available.wf() {
        lemma_exact_when_fits(before.available, amount);
    }
}

/// When a withdrawal is accepted and what it does: a locked account refuses
/// it, then a zero or negative amount is refused; a positive amount at most
/// the available funds on an unlocked account is accepted whenever
/// rust_decimal subtracts it without rounding, and then the available funds
/// drop by the amount while the held funds, the lock flag and every deposit
/// record stay.
pub proof fn lemma_withdrawal_effect(s: StoreView, client: ClientId, tx: TxId, amount: Amount)
    ensures
        ({
            let before = account_or_default(s.accounts, client);
            let out = process_outcome(s, Transaction::Withdraw { client, tx, amount });
            &&& before.locked ==> out.1 == Err::<(), TxError>(TxError::AccountLocked { client })
            &&& (!before.locked && amount.mantissa <= 0) ==> out.1 == Err::<(), TxError>(
                TxError::NonPositiveAmount { amount },
            )
            &&& (!before.locked && amount.mantissa > 0 && amount.wf() && before.available.wf()
                && amount.value() <= before.available.value()
                && fits_mantissa(aligned_difference(before.available, amount))) ==> {
                &&& out.1 is Ok
                &&& out.0.accounts[client].available.value() == before.available.value() - amount.value()
                &&& out.0.accounts[client].held == before.held
                &&& out.0.accounts[client].locked == before.locked
                &&& out.0.deposits == s.deposits
            }
        }),
{
    let before = account_or_default(s.accounts, client);
    if amount.wf() && before.available.wf() {
        lemma_exact_when_fits(before.available, amount);
    }
}

/// How a dispute, resolve or chargeback finds its deposit: an id never
/// stored is unknown, a deposit of another client is refused naming its
/// owner, and a deposit in the wrong state is refused (a dispute needs
/// `Posted`, a resolve or chargeback needs `Disputed`); each refusal leaves
/// the state as it was.
pub proof fn lemma_dispute_family_lookup(s: StoreView, t: Transaction)
    requires
        !(t is Deposit || t is Withdraw),
    ensures
        ({
            let x = tx_of(t);
            let c = client_of(t);
            let out = process_outcome(s, t);
            &&& !s.deposits.contains_key(x) ==> out == (s, Err::<(), TxError>(TxError::UnknownTx { tx: x }))
            &&& (s.deposits.contains_key(x) && s.deposits[x].client != c) ==> out == (
                s,
                Err::<(), TxError>(TxError::ClientMismatch { tx: x, owner: s.deposits[x].client, claimed: c }),
            )
            &&& (s.deposits.contains_key(x) && s.deposits[x].client == c && t is Dispute
                && s.deposits[x].state != DepositState::Posted) ==> out == (
                s,
                Err::<(), TxError>(TxError::NotDisputable { tx: x }),
            )
            &&& (s.deposits.contains_key(x) && s.deposits[x].client == c && !(t is Dispute)
                && s.deposits[x].state != DepositState::Disputed) ==> out == (
                s,
                Err::<(), TxError>(TxError::NotUnderDispute { tx: x }),
            )
        }),
{
}

/// A resolve releases a dispute whatever the lock flag: a `Disputed` deposit
/// of the claiming client whose amount moves back without rounding is
/// accepted; it becomes `Posted` again, the amount moves from held back to
/// available, and the lock flag stays.
pub proof fn lemma_resolve_effect(s: StoreView, client: ClientId, tx: TxId)
    ensures
        ({
            let a = account_or_default(s.accounts, client);
            let out = process_outcome(s, Transaction::Resolve { client, tx });
            (s.deposits.contains_key(tx) && s.deposits[tx].client == client
                && s.deposits[tx].state == DepositState::Disputed && a.available.wf() && a.held.wf()
                && s.deposits[tx].amount.wf()
                && fits_mantissa(aligned_sum(a.available, s.deposits[tx].amount))
                && fits_mantissa(aligned_difference(a.held, s.deposits[tx].amount))) ==> {
                &&& out.1 is Ok
                &&& out.0.deposits[tx].state == DepositState::Posted
                &&& out.0.accounts[client].available.value() == a.available.value()
                    + s.deposits[tx].amount.value()
                &&& out.0.accounts[client].held.value() == a.held.value() - s.deposits[tx].amount.value()
                &&& out.0.accounts[client].locked == a.locked
            }
        }),
{
    if s.deposits.contains_key(tx) && s.deposits[tx].client == client {
        let a = account_or_default(s.accounts, client);
        let amount = s.deposits[tx].amount;
        if a.available.wf() && a.held.wf() && amount.wf() {
            lemma_exact_when_fits(a.available, amount);
            lemma_exact_when_fits(a.held, amount);
        }
    }
}

/// The amount a deposit or withdrawal carries; none for the others.
pub open spec fn amount_of_transaction(t: Transaction) -> Option<Amount> {
    match t {
        Transaction::Deposit { amount, .. } => Some(amount),
        Transaction::Withdraw { amount, .. } => Some(amount),
        _ => None,
    }
}

/// Every rejection names the transaction it answers: a tx id in an error is
/// the transaction's own, a client is its own (a client mismatch names the
/// claiming client and the deposit's real owner), an amount is its own, and
/// an insufficient-funds error names the client's available funds. Locks,
/// amounts and funds are only ever reasons to refuse a deposit or withdrawal.
pub proof fn lemma_errors_name_the_transaction(s: StoreView, t: Transaction)
    ensures
        match process_outcome(s, t).1 {
            Ok(_) => true,
            Err(TxError::AccountLocked { client }) => client == client_of(t) && (t is Deposit || t is Withdraw)
                && account_or_default(s.accounts, client).locked,
            Err(TxError::NonPositiveAmount { amount }) => Some(amount) == amount_of_transaction(t)
                && amount.mantissa <= 0,
            Err(TxError::DuplicateTx { tx }) => tx == tx_of(t) && t is Deposit && s.deposits.contains_key(tx),
            Err(TxError::InsufficientFunds { available, requested }) => t is Withdraw
                && Some(requested) == amount_of_transaction(t)
                && available == account_or_default(s.accounts, client_of(t)).available
                && available.value() < requested.value(),
            Err(TxError::UnknownTx { tx }) => tx == tx_of(t) && !s.deposits.contains_key(tx),
            Err(TxError::ClientMismatch { tx, owner, claimed }) => tx == tx_of(t) && claimed == client_of(t)
                && s.deposits.contains_key(tx) && owner == s.deposits[tx].client && owner != claimed,
            Err(TxError::NotDisputable { tx }) => tx == tx_of(t) && t is Dispute,
            Err(TxError::NotUnderDispute { tx }) => tx == tx_of(t) && (t is Resolve || t is Chargeback),
            Err(TxError::BalanceOverflow { tx }) => tx == tx_of(t),
        },
{
}

/// A client without an account starts from nothing: a first deposit of a
/// positive valid amount with a fresh tx id is accepted and leaves exactly
/// that amount available, nothing held and the account unlocked; a first
/// withdrawal of a positive valid amount is refused as insufficient and
/// leaves the new account empty and unlocked.
pub proof fn lemma_new_client_starts_empty(s: StoreView, client: ClientId, tx: TxId, amount: Amount)
    requires
        !s.accounts.contains_key(client),
        amount.wf(),
        amount.mantissa > 0,
    ensures
        !s.deposits.contains_key(tx) ==> ({
            let out = process_outcome(s, Transaction::Deposit { client, tx, amount });
            &&& out.1 is Ok
            &&& out.0.accounts[client].available.value() == amount.value()
            &&& out.0.accounts[client].held.value() == 0
            &&& !out.0.accounts[client].locked
        }),
        ({
            let out = process_outcome(s, Transaction::Withdraw { client, tx, amount });
            &&& out.1 is Err && out.1->Err_0 is InsufficientFunds
            &&& out.0.accounts[client].available.value() == 0
            &&& out.0.accounts[client].held.value() == 0
            &&& !out.0.accounts[client].locked
        }),
{
    lemma_value_sign(amount);
    lemma_value_sign(default_account().available);
    lemma_value_sign(default_account().held);
}

/// An output row reports the account as it is: its client, available and
/// held funds and lock flag, and a total that is the available plus the held
/// funds in value whenever rust_decimal adds them without rounding.
pub proof fn lemma_output_row_reports_the_account(client: ClientId, a: Account)
    ensures
        row_of(client, a).client == client,
        row_of(client, a).available == a.available,
        row_of(client, a).held == a.held,
        row_of(client, a).locked == a.locked,
        (a.available.wf() && a.held.wf() && fits_mantissa(aligned_sum(a.available, a.held)))
            ==> row_of(client, a).total.value() == a.available.value() + a.held.value(),
{
    if a.available.wf() && a.held.wf() {
        lemma_exact_when_fits(a.available, a.held);
    }
}

} // verus!
