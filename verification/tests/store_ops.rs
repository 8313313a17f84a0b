use payment_engine::amount::Amount;
use payment_engine::model::{DepositRecord, DepositState};
use payment_engine::store::Store;
use rust_decimal::Decimal;
use std::str::FromStr;

fn dec(text: &str) -> Amount {
    let d = Decimal::from_str(text).unwrap();
    Amount::new(d.mantissa(), d.scale()).unwrap()
}

fn posted_deposit(client: u16, amount: Amount) -> DepositRecord {
    DepositRecord { client, amount, state: DepositState::Posted }
}

#[test]
fn account_or_create_creates_a_default_account_on_first_access() {
    let mut store = Store::new();

    let account = store.account_or_create(1);

    assert_eq!(account.available, Amount::zero());
    assert_eq!(account.held, Amount::zero());
    assert!(!account.locked);
}

#[test]
fn account_or_create_returns_the_same_account_on_later_access() {
    let mut store = Store::new();

    store.account_or_create(1).available = dec("5");

    let account = store.account_or_create(1);
    assert_eq!(account.available, dec("5"));
}

#[test]
fn accounts_of_different_clients_are_independent() {
    let mut store = Store::new();

    store.account_or_create(1).available = dec("5");

    let other = store.account_or_create(2);
    assert_eq!(other.available, Amount::zero());
}

#[test]
fn insert_deposit_and_get_deposit_round_trip() {
    let mut store = Store::new();

    store.insert_deposit(10, posted_deposit(1, dec("2.5")));

    let record = store.get_deposit(10).expect("deposit 10 should be stored");
    assert_eq!(record.client, 1);
    assert_eq!(record.amount, dec("2.5"));
    assert!(matches!(record.state, DepositState::Posted));
}

#[test]
fn get_deposit_on_unknown_id_returns_none() {
    let store = Store::new();

    assert!(store.get_deposit(999).is_none());
}

#[test]
fn contains_tx_is_false_before_insert_and_true_after() {
    let mut store = Store::new();

    assert!(!store.contains_tx(10));

    store.insert_deposit(10, posted_deposit(1, dec("2.5")));

    assert!(store.contains_tx(10));
}

#[test]
fn get_deposit_mut_writes_through_to_the_store() {
    let mut store = Store::new();
    store.insert_deposit(10, posted_deposit(1, dec("2.5")));

    store.get_deposit_mut(10).unwrap().state = DepositState::Disputed;

    assert!(matches!(store.get_deposit(10).unwrap().state, DepositState::Disputed));
    assert!(store.get_deposit_mut(11).is_none());
    assert!(!store.contains_tx(11));
}

#[test]
fn iter_accounts_lists_every_client_once() {
    let mut store = Store::new();
    store.account_or_create(3).available = dec("1");
    store.account_or_create(1);
    store.account_or_create(3).held = dec("2");

    let mut accounts = store.iter_accounts();
    accounts.sort_by_key(|(client, _)| *client);

    assert_eq!(accounts.len(), 2);
    assert_eq!(accounts[0].0, 1);
    assert_eq!(accounts[1].0, 3);
    assert_eq!(accounts[1].1.available, dec("1"));
    assert_eq!(accounts[1].1.held, dec("2"));
}
