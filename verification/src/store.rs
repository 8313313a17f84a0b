//! In-memory state behind intention-revealing methods: per-client accounts and
//! the retained deposits. No business rules live here.

use crate::model::{default_account, Account, ClientId, DepositRecord, TxId};
use std::collections::hash_map::Entry;
use std::collections::HashMap;
use vstd::prelude::*;

verus! {

broadcast use vstd::std_specs::hash::group_hash_axioms;

/// Holds all mutable state: per-client accounts and the retained deposits
/// (the only disputable transactions, so the only ones stored).
pub struct Store {
    accounts: HashMap<ClientId, Account>,
    deposits: HashMap<TxId, DepositRecord>,
}

/// What a store holds: the account of each known client and the record of
/// each stored deposit.
#[verifier::ext_equal]
pub struct StoreView {
    pub accounts: Map<ClientId, Account>,
    pub deposits: Map<TxId, DepositRecord>,
}

impl View for Store {
    type V = StoreView;

    closed spec fn view(&self) -> StoreView {
        StoreView { accounts: self.accounts@, deposits: self.deposits@ }
    }
}

/// The account of `id` in `accounts`, or the default account if there is none.
pub open spec fn account_or_default(accounts: Map<ClientId, Account>, id: ClientId) -> Account {
    if accounts.contains_key(id) {
        accounts[id]
    } else {
        default_account()
    }
}

impl Default for Store {
    /// An empty store.
    fn default() -> (s: Store)
        ensures
            s@.accounts == Map::<ClientId, Account>::empty(),
            s@.deposits == Map::<TxId, DepositRecord>::empty(),
    {
        Store::new()
    }
}

impl Store {
    /// An empty store.
    pub fn new() -> (s: Store)
        ensures
            s@.accounts == Map::<ClientId, Account>::empty(),
            s@.deposits == Map::<TxId, DepositRecord>::empty(),
    {
        Store { accounts: HashMap::new(), deposits: HashMap::new() }
    }

    /// The client's account, created zeroed and unlocked on first access.
    /// Whatever the caller writes through the reference is what the store
    /// holds for that client afterwards.
    pub fn account_or_create(&mut self, id: ClientId) -> (r: &mut Account)
        ensures
            *r == account_or_default(old(self)@.accounts, id),
            final(self)@.accounts == old(self)@.accounts.insert(id, *final(r)),
            final(self)@.deposits == old(self)@.deposits,
    {
        self.accounts.entry(id).or_insert(Account::default())
    }

    /// The client's account, if it exists.
    pub fn get_account(&self, id: ClientId) -> (r: Option<&Account>)
        ensures
            match r {
                Some(a) => self@.accounts.contains_key(id) && *a == self@.accounts[id],
                None => !self@.accounts.contains_key(id),
            },
    {
        self.accounts.get(&id)
    }

    /// The stored deposit with this tx id, if any.
    pub fn get_deposit(&self, id: TxId) -> (r: Option<&DepositRecord>)
        ensures
            match r {
                Some(d) => self@.deposits.contains_key(id) && *d == self@.deposits[id],
                None => !self@.deposits.contains_key(id),
            },
    {
        self.deposits.get(&id)
    }

    /// Mutable access to the stored deposit with this tx id, if any. Whatever
    /// the caller writes through the reference is what the store holds for
    /// that tx id afterwards.
    pub fn get_deposit_mut(&mut self, id: TxId) -> (r: Option<&mut DepositRecord>)
        ensures
            final(self)@.accounts == old(self)@.accounts,
            match r {
                Some(d) => {
                    &&& old(self)@.deposits.contains_key(id)
                    &&& *d == old(self)@.deposits[id]
                    &&& final(self)@.deposits == old(self)@.deposits.insert(id, *final(d))
                },
                None => {
                    &&& !old(self)@.deposits.contains_key(id)
                    &&& final(self)@.deposits == old(self)@.deposits
                },
            },
    {
        match self.deposits.entry(id) {
            Entry::Occupied(occupied) => Some(occupied.into_mut()),
            Entry::Vacant(vacant) => {
                let _ = vacant.into_key();
                None
            },
        }
    }

    /// Stores (or replaces) the deposit record under this tx id.
    pub fn insert_deposit(&mut self, id: TxId, record: DepositRecord)
        ensures
            final(self)@.accounts == old(self)@.accounts,
            final(self)@.deposits == old(self)@.deposits.insert(id, record),
    {
        self.deposits.insert(id, record);
    }

    /// True if a deposit with this tx id was already stored.
    pub fn contains_tx(&self, id: TxId) -> (r: bool)
        ensures
            r == self@.deposits.contains_key(id),
    {
        self.deposits.contains_key(&id)
    }

    /// All accounts with their client ids, each client exactly once, in an
    /// unspecified order (that of the hash map).
    pub fn iter_accounts(&self) -> (r: Vec<(ClientId, Account)>)
        ensures
            r@.len() == self@.accounts.dom().len(),
            forall|i: int|
                #![trigger r@[i]]
                0 <= i < r@.len() ==> self@.accounts.contains_key(r@[i].0)
                    && self@.accounts[r@[i].0] == r@[i].1,
            forall|k: ClientId|
                #[trigger] self@.accounts.contains_key(k) ==> exists|i: int|
                    0 <= i < r@.len() && #[trigger] r@[i].0 == k,
            forall|i: int, j: int|
                0 <= i < r@.len() && 0 <= j < r@.len() && i != j ==> #[trigger] r@[i].0
                    != #[trigger] r@[j].0,
    {
        let mut out: Vec<(ClientId, Account)> = Vec::new();
        let ghost pairs = vstd::std_specs::iter::IteratorSpec::remaining(
            &vstd::std_specs::hash::spec_hash_map_iter(&self.accounts),
        );
        proof {
            vstd::std_specs::hash::axiom_spec_hash_map_iter(&self.accounts);
        }
        for pair in it: self.accounts.iter()
            invariant
                it.seq() == pairs,
                pairs.no_duplicates(),
                out@.len() == it.index(),
                forall|i: int|
                    0 <= i < it.index() ==> #[trigger] out@[i] == (*it.seq()[i].0, *it.seq()[i].1),
        {
            let (k, v) = pair;
            out.push((*k, *v));
        }
        assert forall|k: ClientId| #[trigger] self@.accounts.contains_key(k) implies exists|i: int|
            0 <= i < out@.len() && #[trigger] out@[i].0 == k by {
            let i = choose|i: int| 0 <= i < pairs.len() && pairs[i] == (&k, &self.accounts@[k]);
            assert(out@[i].0 == k);
        }
        assert forall|i: int, j: int|
            0 <= i < out@.len() && 0 <= j < out@.len() && i != j implies #[trigger] out@[i].0
                != #[trigger] out@[j].0 by {
            if out@[i].0 == out@[j].0 {
                assert(self.accounts@.contains_key(*pairs[i].0));
                assert(self.accounts@.contains_key(*pairs[j].0));
                assert(*pairs[i].1 == self.accounts@[*pairs[i].0]);
                assert(*pairs[j].1 == self.accounts@[*pairs[j].0]);
                assert(pairs[i] == pairs[j]);
            }
        }
        out
    }
}

} // verus!
