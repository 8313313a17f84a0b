use payment_engine::amount::Amount;
use payment_engine::engine::PaymentEngine;
use payment_engine::io::{account_rows, CsvRecord, RecordError, RowError};
use payment_engine::model::{Account, ClientId, DepositState, Transaction, TxError, TxId};
use rust_decimal::Decimal;
use std::str::FromStr;

/// The decimal written `text`.
fn dec(text: &str) -> Amount {
    let d = Decimal::from_str(text).unwrap();
    Amount::new(d.mantissa(), d.scale()).unwrap()
}

fn deposit(client: ClientId, tx: TxId, amount: Amount) -> Transaction {
    Transaction::Deposit { client, tx, amount }
}

fn snapshot(engine: &PaymentEngine) -> (Vec<(ClientId, Account)>, Vec<Option<DepositState>>) {
    let mut accounts = engine.store().iter_accounts();
    accounts.sort_by_key(|(c, _)| *c);
    let states = (0..10).map(|tx| engine.store().get_deposit(tx).map(|d| d.state)).collect();
    (accounts, states)
}

#[test]
fn held_funds_equal_the_open_disputes_and_are_never_negative() {
    let mut engine = PaymentEngine::new();
    let steps = [
        deposit(1, 1, dec("4")),
        deposit(1, 2, dec("6.5")),
        Transaction::Withdraw { client: 1, tx: 3, amount: dec("10") },
        Transaction::Dispute { client: 1, tx: 1 },
        Transaction::Dispute { client: 1, tx: 2 },
        Transaction::Resolve { client: 1, tx: 1 },
        Transaction::Chargeback { client: 1, tx: 2 },
        Transaction::Resolve { client: 1, tx: 2 },
        Transaction::Dispute { client: 1, tx: 1 },
    ];
    let expected_held = ["0", "0", "0", "4", "10.5", "6.5", "0", "0", "4"];
    for (step, held) in steps.iter().zip(expected_held.iter()) {
        let _ = engine.process(*step);
        let account = *engine.store().get_account(1).unwrap();
        assert_eq!(account.held, dec(held));
        assert!(!account.held.less_than(Amount::zero()));
    }
}

#[test]
fn every_rejection_leaves_the_state_untouched() {
    let mut engine = PaymentEngine::new();
    engine.process(deposit(1, 1, dec("5"))).unwrap();
    engine.process(deposit(2, 2, dec("1"))).unwrap();
    engine.process(Transaction::Dispute { client: 2, tx: 2 }).unwrap();
    let before = snapshot(&engine);

    let rejected = [
        deposit(1, 1, dec("3")),
        deposit(1, 5, dec("-1")),
        Transaction::Withdraw { client: 1, tx: 6, amount: dec("7") },
        Transaction::Dispute { client: 1, tx: 9 },
        Transaction::Dispute { client: 1, tx: 2 },
        Transaction::Dispute { client: 2, tx: 2 },
        Transaction::Resolve { client: 1, tx: 1 },
        Transaction::Chargeback { client: 1, tx: 1 },
    ];
    for t in rejected {
        assert!(engine.process(t).is_err());
        assert_eq!(snapshot(&engine), before);
    }
}

#[test]
fn resolve_undoes_dispute() {
    let mut engine = PaymentEngine::new();
    engine.process(deposit(3, 1, dec("2.25"))).unwrap();
    engine.process(Transaction::Withdraw { client: 3, tx: 2, amount: dec("1") }).unwrap();
    let before = snapshot(&engine);

    engine.process(Transaction::Dispute { client: 3, tx: 1 }).unwrap();
    assert_ne!(snapshot(&engine), before);
    engine.process(Transaction::Resolve { client: 3, tx: 1 }).unwrap();

    assert_eq!(snapshot(&engine), before);
}

#[test]
fn dispute_and_resolve_keep_the_total_and_chargeback_removes_the_amount() {
    let mut engine = PaymentEngine::new();
    engine.process(deposit(1, 1, dec("8"))).unwrap();
    engine.process(deposit(1, 2, dec("2"))).unwrap();
    let total = |e: &PaymentEngine| e.store().get_account(1).unwrap().total();

    engine.process(Transaction::Dispute { client: 1, tx: 1 }).unwrap();
    assert_eq!(total(&engine), dec("10"));
    engine.process(Transaction::Resolve { client: 1, tx: 1 }).unwrap();
    assert_eq!(total(&engine), dec("10"));
    engine.process(Transaction::Dispute { client: 1, tx: 1 }).unwrap();
    engine.process(Transaction::Chargeback { client: 1, tx: 1 }).unwrap();
    assert_eq!(total(&engine), dec("2"));
    assert!(engine.store().get_account(1).unwrap().locked);
}

#[test]
fn charged_back_deposit_and_lock_are_permanent() {
    let mut engine = PaymentEngine::new();
    engine.process(deposit(1, 1, dec("5"))).unwrap();
    engine.process(Transaction::Dispute { client: 1, tx: 1 }).unwrap();
    engine.process(Transaction::Chargeback { client: 1, tx: 1 }).unwrap();

    for t in [
        Transaction::Dispute { client: 1, tx: 1 },
        Transaction::Resolve { client: 1, tx: 1 },
        Transaction::Chargeback { client: 1, tx: 1 },
        deposit(1, 1, dec("5")),
        deposit(1, 2, dec("5")),
    ] {
        let _ = engine.process(t);
        assert!(matches!(engine.store().get_deposit(1).unwrap().state, DepositState::ChargedBack));
        assert!(engine.store().get_account(1).unwrap().locked);
    }
}

#[test]
fn dispute_family_never_creates_accounts() {
    let mut engine = PaymentEngine::new();
    engine.process(deposit(1, 1, dec("5"))).unwrap();
    for t in [
        Transaction::Dispute { client: 4, tx: 1 },
        Transaction::Resolve { client: 5, tx: 1 },
        Transaction::Chargeback { client: 6, tx: 7 },
    ] {
        assert!(engine.process(t).is_err());
    }
    assert_eq!(engine.store().iter_accounts().len(), 1);
}

#[test]
fn balances_reach_the_whole_decimal_range() {
    let mut engine = PaymentEngine::new();
    engine.process(deposit(1, 1, dec("5000000000000000000000000"))).unwrap();
    engine.process(deposit(1, 2, dec("5000000000000000000000000"))).unwrap();
    assert_eq!(engine.store().get_account(1).unwrap().available, dec("10000000000000000000000000"));

    let big = dec("7900000000000000000000000");
    engine.process(deposit(2, 3, big)).unwrap();
    engine.process(Transaction::Withdraw { client: 2, tx: 4, amount: big }).unwrap();
    engine.process(deposit(2, 5, big)).unwrap();
    engine.process(Transaction::Withdraw { client: 2, tx: 6, amount: big }).unwrap();
    engine.process(Transaction::Dispute { client: 2, tx: 3 }).unwrap();
    engine.process(Transaction::Dispute { client: 2, tx: 5 }).unwrap();
    assert_eq!(engine.store().get_account(2).unwrap().available, dec("-15800000000000000000000000"));
    assert_eq!(engine.store().get_account(2).unwrap().held, dec("15800000000000000000000000"));
}

#[test]
fn balance_overflow_is_rejected_and_state_untouched() {
    let mut engine = PaymentEngine::new();
    let max = dec("79228162514264337593543950335");
    assert_eq!((max.mantissa, max.scale), (79228162514264337593543950335, 0));
    engine.process(deposit(1, 1, max)).unwrap();

    assert_eq!(
        engine.process(deposit(1, 2, dec("1"))),
        Err(TxError::BalanceOverflow { tx: 2 })
    );
    assert!(!engine.store().contains_tx(2));
    assert_eq!(engine.store().get_account(1).unwrap().available, max);

    // A withdrawal never overflows, whatever its id.
    assert_eq!(engine.process(Transaction::Withdraw { client: 1, tx: 7, amount: dec("1") }), Ok(()));

    // Held funds at the limit: a second dispute cannot hold more.
    engine.process(deposit(3, 3, max)).unwrap();
    engine.process(Transaction::Dispute { client: 3, tx: 3 }).unwrap();
    engine.process(deposit(3, 4, dec("1"))).unwrap();
    assert_eq!(
        engine.process(Transaction::Dispute { client: 3, tx: 4 }),
        Err(TxError::BalanceOverflow { tx: 4 })
    );
    assert_eq!(engine.store().get_account(3).unwrap().held, max);
    assert!(matches!(engine.store().get_deposit(4).unwrap().state, DepositState::Posted));
}

#[test]
fn withdrawals_with_different_ids_get_the_same_answer() {
    let mut first = PaymentEngine::new();
    let mut second = PaymentEngine::new();
    for e in [&mut first, &mut second] {
        e.process(deposit(1, 1, dec("3"))).unwrap();
    }
    assert_eq!(
        first.process(Transaction::Withdraw { client: 1, tx: 2, amount: dec("1") }),
        second.process(Transaction::Withdraw { client: 1, tx: 1, amount: dec("1") })
    );
    assert_eq!(snapshot(&first), snapshot(&second));
}

#[test]
fn transactions_of_different_clients_commute() {
    let steps = [
        (deposit(1, 1, dec("4")), deposit(2, 2, dec("3"))),
        (Transaction::Dispute { client: 1, tx: 1 }, Transaction::Withdraw { client: 2, tx: 9, amount: dec("1") }),
        (Transaction::Chargeback { client: 1, tx: 1 }, Transaction::Dispute { client: 2, tx: 2 }),
    ];
    let mut in_order = PaymentEngine::new();
    let mut swapped = PaymentEngine::new();
    for (a, b) in steps {
        let r1 = (in_order.process(a), in_order.process(b));
        let r2b = swapped.process(b);
        let r2a = swapped.process(a);
        assert_eq!(r1, (r2a, r2b));
        assert_eq!(snapshot(&in_order), snapshot(&swapped));
    }
}

#[test]
fn process_record_reports_row_and_engine_rejections() {
    let mut engine = PaymentEngine::new();
    let record = |kind: &str, tx: TxId, amount: Option<&str>| CsvRecord {
        kind: kind.to_string(),
        client: 2,
        tx,
        amount: amount.map(|a| {
            let d = Decimal::from_str(a).unwrap();
            Amount::new(d.mantissa(), d.scale()).unwrap()
        }),
    };

    assert_eq!(engine.process_record(record("Deposit", 1, Some("3"))), Ok(()));
    assert_eq!(
        engine.process_record(record("deposit", 2, None)),
        Err(RecordError::Row(RowError::MissingAmount { tx: 2 }))
    );
    assert_eq!(
        engine.process_record(record("withdrawal", 3, Some("4"))),
        Err(RecordError::Tx(TxError::InsufficientFunds { available: dec("3"), requested: dec("4") }))
    );
    assert_eq!(
        engine.process_record(record("refund", 4, None)),
        Err(RecordError::Row(RowError::UnknownType { kind: "refund".to_string(), tx: 4 }))
    );
    assert_eq!(engine.store().get_account(2).unwrap().available, dec("3"));
}

#[test]
fn account_rows_compute_totals_and_refuse_out_of_range_totals() {
    let mut engine = PaymentEngine::new();
    engine.process(deposit(1, 1, dec("2.5"))).unwrap();
    engine.process(Transaction::Dispute { client: 1, tx: 1 }).unwrap();
    engine.process(deposit(1, 2, dec("1"))).unwrap();

    let rows = account_rows(engine.store()).unwrap();
    assert_eq!(rows.len(), 1);
    assert_eq!(rows[0].available, dec("1"));
    assert_eq!(rows[0].held, dec("2.5"));
    assert_eq!(rows[0].total, dec("3.5"));
    assert!(!rows[0].locked);

    let max = dec("79228162514264337593543950335");
    let account = engine.store.account_or_create(9);
    account.available = max;
    account.held = max;
    assert!(account_rows(engine.store()).is_none());
}

#[test]
fn sums_beyond_ninety_six_bits_drop_a_decimal_place_with_rounding() {
    let mut engine = PaymentEngine::new();
    let widest = Amount::new(79228162514264337593543950335, 1).unwrap();
    engine.process(deposit(1, 1, widest)).unwrap();

    assert_eq!(engine.process(deposit(1, 2, dec("0.1"))), Ok(()));
    let available = engine.store().get_account(1).unwrap().available;
    assert_eq!((available.mantissa, available.scale), (7922816251426433759354395034, 0));

    // At the top of the range a small deposit is absorbed by the rounding.
    let max = dec("79228162514264337593543950335");
    engine.process(deposit(2, 3, max)).unwrap();
    assert_eq!(engine.process(deposit(2, 4, dec("0.0001"))), Ok(()));
    assert_eq!(engine.store().get_account(2).unwrap().available, max);
    assert!(engine.store().contains_tx(4));
}

#[test]
fn amount_arithmetic_follows_rust_decimal() {
    let max = Amount::new(79228162514264337593543950335, 0).unwrap();
    let min = Amount::new(-79228162514264337593543950335, 0).unwrap();
    let one = dec("1");
    assert_eq!(max.checked_add(one), None);
    assert_eq!(max.checked_sub(one), Some(dec("79228162514264337593543950334")));
    assert_eq!(Amount::zero().checked_sub(max), Some(min));
    assert_eq!(min.checked_sub(one), None);

    let sum = dec("1.5").checked_add(dec("2.25")).unwrap();
    assert_eq!((sum.mantissa, sum.scale), (375, 2));
    let difference = dec("1.5").checked_sub(dec("2.25")).unwrap();
    assert_eq!((difference.mantissa, difference.scale), (-75, 2));

    assert!(one.is_positive());
    assert!(!Amount::zero().is_positive());
    assert!(!dec("-0.5").is_positive());
    assert!(Amount::zero().less_than(one));
    assert!(!one.less_than(one));
    assert!(dec("-0.5").less_than(Amount::zero()));
    assert!(dec("0.99999").less_than(one));

    assert!(dec("2.0") == dec("2"));
    assert!(dec("2.0") != dec("2.01"));
    let invalid = Amount { mantissa: 1, scale: 29 };
    assert!(!invalid.is_valid());
    assert!(invalid == Amount { mantissa: 1, scale: 29 });
    assert!(invalid != Amount { mantissa: 10, scale: 30 });
    assert_eq!(invalid.checked_add(one), None);
    assert_eq!(Account::default().total(), Amount::zero());
}

#[test]
fn rounding_near_the_top_can_keep_a_resolve_from_restoring_held_funds() {
    let mut engine = PaymentEngine::new();
    let wide = Amount::new(79228162514264337593543950335, 1).unwrap();
    engine.process(deposit(1, 1, wide)).unwrap();
    engine.process(Transaction::Dispute { client: 1, tx: 1 }).unwrap();
    engine.process(deposit(1, 2, dec("0.1"))).unwrap();

    engine.process(Transaction::Dispute { client: 1, tx: 2 }).unwrap();
    let held = engine.store().get_account(1).unwrap().held;
    assert_eq!((held.mantissa, held.scale), (7922816251426433759354395034, 0));

    engine.process(Transaction::Resolve { client: 1, tx: 2 }).unwrap();
    let held = engine.store().get_account(1).unwrap().held;
    assert_eq!((held.mantissa, held.scale), (7922816251426433759354395034, 0));
    assert!(held != wide);
}
