//! The ledger: what each account holds, and which account owns each resource.
//!
//! [`LedgerView`] is the ledger as mathematics, with one function per request
//! that gives the next ledger or the reason for refusal. [`Module`] is the
//! ledger as data, and each of its operations is proved to do what the
//! function of the same name says.
//!
//! Every registration credits the full supply to the new account, so the
//! balances sum to one supply per registration; nothing else makes or
//! destroys money. A transfer first takes the amount from the sender and then
//! gives it to the receiver, so a transfer to oneself changes no balance.
//! Registering a resource that has an owner replaces the owner.

use vstd::prelude::*;
use crate::assoc::{distinct_keys, to_map, lemma_to_map_entry, lemma_to_map_absent,
    lemma_to_map_push, lemma_to_map_update, lemma_to_map_domain};
use crate::bytes::copy_of;
use crate::error::Error;
use crate::resource_map::ResourceMap;
use crate::supply::{balance_of, total_held, lemma_total_insert, lemma_total_bounds,
    lemma_total_empty};

verus! {

/// An account's identity. The caller's identity arrives already authenticated.
pub type AccountId = u64;

/// What an account is credited with when it registers.
pub const TOTAL_SUPPLY: u64 = 21_000_000;

/// The most registrations whose credits together still fit in 64 bits.
pub const MAX_REGISTRATIONS: u64 = 878_416_384_462;

/// The ledger as a mathematical value.
pub struct LedgerView {
    /// The balance entry of each account that has one.
    pub balances: Map<AccountId, u64>,
    /// The owner of each registered resource.
    pub owners: Map<Seq<u8>, AccountId>,
    /// How many registrations have succeeded.
    pub registered: nat,
}

impl LedgerView {
    /// The ledger before any request.
    pub open spec fn empty() -> LedgerView {
        LedgerView { balances: Map::empty(), owners: Map::empty(), registered: 0 }
    }

    /// All balances together are one credit per registration, and the
    /// registrations are few enough for that sum to fit in 64 bits.
    pub open spec fn valid(self) -> bool {
        &&& total_held(self.balances) == self.registered * TOTAL_SUPPLY
        &&& self.registered <= MAX_REGISTRATIONS
    }

    /// What the account holds; nothing where it has no entry.
    pub open spec fn balance(self, account: AccountId) -> u64 {
        balance_of(self.balances, account)
    }

    /// Registration: an account without an entry gets one, holding the credit.
    pub open spec fn register_account(self, caller: AccountId) -> Result<LedgerView, Error> {
        if self.balances.contains_key(caller) {
            Err(Error::AlreadyRegistered)
        } else {
            Ok(
                LedgerView {
                    balances: self.balances.insert(caller, TOTAL_SUPPLY),
                    registered: self.registered + 1,
                    ..self
                },
            )
        }
    }

    /// A registered caller becomes the owner of the resource, whoever owned it.
    pub open spec fn register_resource(self, caller: AccountId, resource: Seq<u8>) -> Result<
        LedgerView,
        Error,
    > {
        if !self.balances.contains_key(caller) {
            Err(Error::SenderNotRegistered)
        } else {
            Ok(LedgerView { owners: self.owners.insert(resource, caller), ..self })
        }
    }

    /// The amount leaves `from` and then arrives at `to`; both have an entry
    /// afterwards. Moving an amount to oneself changes no balance.
    pub open spec fn transfer_balance(self, from: AccountId, to: AccountId, amount: u64) -> Result<
        LedgerView,
        Error,
    > {
        if self.balance(from) < amount {
            Err(Error::InsufficientFunds)
        } else {
            let debited = self.balances.insert(from, (self.balance(from) - amount) as u64);
            let credited = debited.insert(to, (balance_of(debited, to) + amount) as u64);
            Ok(LedgerView { balances: credited, ..self })
        }
    }

    /// The owner hands the resource to another account; both must have a
    /// balance entry.
    pub open spec fn transfer_resource(
        self,
        caller: AccountId,
        to: AccountId,
        resource: Seq<u8>,
    ) -> Result<LedgerView, Error> {
        if !self.owners.contains_key(resource) {
            Err(Error::ResourceNotPresent)
        } else if self.owners[resource] != caller {
            Err(Error::SenderDoesNotOwnResource)
        } else if !self.balances.contains_key(to) || !self.balances.contains_key(caller) {
            Err(Error::ReceiverNotRegistered)
        } else {
            Ok(LedgerView { owners: self.owners.insert(resource, to), ..self })
        }
    }
}

/// A request was answered as the model says: on success the ledger is the
/// next one, on refusal the error is the model's and the ledger is unchanged.
pub open spec fn answered(
    expected: Result<LedgerView, Error>,
    before: LedgerView,
    after: LedgerView,
    res: Result<(), Error>,
) -> bool {
    match expected {
        Ok(next) => res is Ok && after == next,
        Err(e) => res == Err::<(), Error>(e) && after == before,
    }
}

/// The ledger.
pub struct Module {
    balances: Vec<(AccountId, u64)>,
    owners: ResourceMap,
    registered: u64,
}

impl View for Module {
    type V = LedgerView;

    closed spec fn view(&self) -> LedgerView {
        LedgerView {
            balances: to_map(self.balances@),
            owners: self.owners@,
            registered: self.registered as nat,
        }
    }
}

impl Module {
    /// The entries are kept one per account and one per resource.
    closed spec fn well_kept(&self) -> bool {
        &&& distinct_keys(self.balances@)
        &&& self.owners.inv()
    }

    /// The ledger's invariant: its entries are kept one per key, and its
    /// view is valid.
    pub closed spec fn inv(&self) -> bool {
        &&& self.well_kept()
        &&& self@.valid()
    }

    /// The invariant gives the validity of the view.
    pub proof fn lemma_inv_valid(&self)
        requires
            self.inv(),
        ensures
            self@.valid(),
    {
    }

    /// An empty ledger.
    pub fn new() -> (ledger: Module)
        ensures
            ledger.inv(),
            ledger@ == LedgerView::empty(),
    {
        let ledger = Module { balances: Vec::new(), owners: ResourceMap::new(), registered: 0 };
        proof {
            lemma_total_empty();
        }
        ledger
    }

    /// Returns 1.
    pub fn get_value() -> (value: u32)
        ensures
            value == 1,
    {
        1
    }

    /// The credit of one registration.
    pub fn total_supply() -> (supply: u64)
        ensures
            supply == TOTAL_SUPPLY,
    {
        TOTAL_SUPPLY
    }

    /// Whether the resource has an owner.
    pub fn resource_exist(&self, resource_hash: &Vec<u8>) -> (present: bool)
        requires
            self.inv(),
        ensures
            present == self@.owners.contains_key(resource_hash@),
    {
        self.owners.contains_key(resource_hash)
    }

    /// The resource's owner, if it has one.
    pub fn get_resource_ownership(&self, resource_hash: &Vec<u8>) -> (owner: Option<AccountId>)
        requires
            self.inv(),
        ensures
            owner == (if self@.owners.contains_key(resource_hash@) {
                Some(self@.owners[resource_hash@])
            } else {
                None
            }),
    {
        self.owners.get(resource_hash)
    }

    /// The position of the account's balance entry, if it has one.
    fn find(&self, account: AccountId) -> (at: Option<usize>)
        requires
            distinct_keys(self.balances@),
        ensures
            match at {
                Some(i) => i < self.balances@.len() && self.balances@[i as int].0 == account
                    && self@.balances.contains_key(account) && self@.balances[account]
                    == self.balances@[i as int].1,
                None => !self@.balances.contains_key(account),
            },
    {
        let mut i: usize = 0;
        while i < self.balances.len()
            invariant
                distinct_keys(self.balances@),
                i <= self.balances@.len(),
                forall|j: int| 0 <= j < i ==> self.balances@[j].0 != account,
            decreases self.balances.len() - i,
        {
            if self.balances[i].0 == account {
                proof {
                    lemma_to_map_entry(self.balances@, i as int);
                }
                return Some(i);
            }
            i += 1;
        }
        proof {
            lemma_to_map_absent(self.balances@, account);
        }
        None
    }

    /// Whether the account has a balance entry.
    pub fn is_registered(&self, account: AccountId) -> (present: bool)
        requires
            self.inv(),
        ensures
            present == self@.balances.contains_key(account),
    {
        self.find(account).is_some()
    }

    /// What the account holds; zero where it has no entry.
    pub fn get_balance(&self, account: AccountId) -> (amount: u64)
        requires
            self.inv(),
        ensures
            amount == self@.balance(account),
    {
        self.held(account)
    }

    /// As `get_balance`, while the total is out of balance.
    fn held(&self, account: AccountId) -> (amount: u64)
        requires
            self.well_kept(),
        ensures
            amount == self@.balance(account),
    {
        match self.find(account) {
            Some(i) => self.balances[i].1,
            None => 0,
        }
    }

    /// Writes one balance entry, new or in place of the old one.
    fn put(&mut self, account: AccountId, amount: u64)
        requires
            old(self).well_kept(),
        ensures
            final(self).well_kept(),
            final(self)@ == (LedgerView {
                balances: old(self)@.balances.insert(account, amount),
                ..old(self)@
            }),
    {
        let ghost before = self.balances@;
        match self.find(account) {
            Some(i) => {
                self.balances[i] = (account, amount);
                proof {
                    lemma_to_map_update(before, i as int, amount);
                }
            },
            None => {
                self.balances.push((account, amount));
                proof {
                    lemma_to_map_push(before, account, amount);
                    assert forall|a: int, b: int|
                        0 <= a < b < self.balances@.len() implies self.balances@[a].0
                        != self.balances@[b].0 by {
                        if b == before.len() {
                            lemma_to_map_domain(before, account);
                            assert(before[a].0 != account);
                        } else {
                            assert(before[a].0 != before[b].0);
                        }
                    }
                }
            },
        }
    }

    /// How many registrations have succeeded.
    pub fn registered_accounts(&self) -> (count: u64)
        requires
            self.inv(),
        ensures
            count == self@.registered,
    {
        self.registered
    }

    /// The sum of all balances.
    pub fn total_balance(&self) -> (total: u64)
        requires
            self.inv(),
        ensures
            total == total_held(self@.balances),
    {
        let mut sum: u128 = 0;
        let mut i: usize = 0;
        proof {
            lemma_total_empty();
        }
        while i < self.balances.len()
            invariant
                distinct_keys(self.balances@),
                i <= self.balances@.len(),
                sum == total_held(to_map(self.balances@.take(i as int))),
                sum <= i * u64::MAX,
            decreases self.balances.len() - i,
        {
            proof {
                let seen = self.balances@.take(i as int);
                let entry = self.balances@[i as int];
                assert(self.balances@.take(i + 1) =~= seen.push(entry));
                lemma_to_map_push(seen, entry.0, entry.1);
                assert forall|j: int| 0 <= j < seen.len() implies seen[j].0 != entry.0 by {
                    assert(self.balances@[j].0 != self.balances@[i as int].0);
                }
                lemma_to_map_absent(seen, entry.0);
                lemma_total_insert(to_map(seen), entry.0, entry.1);
            }
            sum = sum + self.balances[i].1 as u128;
            i += 1;
        }
        assert(self.balances@.take(self.balances@.len() as int) =~= self.balances@);
        sum as u64
    }

    /// A copy of the ledger, to work on while this one stays as it is.
    pub fn duplicate(&self) -> (copy: Module)
        requires
            self.inv(),
        ensures
            copy.inv(),
            copy@ == self@,
    {
        let balances = copy_of(&self.balances);
        Module { balances, owners: self.owners.duplicate(), registered: self.registered }
    }

    /// Gives the caller a balance entry that holds the credit of one
    /// registration, unless the caller has an entry already.
    pub fn register_account(&mut self, caller: AccountId) -> (res: Result<(), Error>)
        requires
            old(self).inv(),
            !old(self)@.balances.contains_key(caller) ==> old(self)@.registered
                < MAX_REGISTRATIONS,
        ensures
            final(self).inv(),
            answered(old(self)@.register_account(caller), old(self)@, final(self)@, res),
    {
        if self.find(caller).is_some() {
            return Err(Error::AlreadyRegistered);
        }
        proof {
            lemma_total_insert(self@.balances, caller, TOTAL_SUPPLY);
        }
        self.put(caller, TOTAL_SUPPLY);
        self.registered = self.registered + 1;
        Ok(())
    }

    /// Makes the caller the owner of the resource, if the caller has a balance
    /// entry. An earlier owner of the resource is replaced.
    pub fn register_resource(&mut self, caller: AccountId, resource_hash: Vec<u8>) -> (res: Result<
        (),
        Error,
    >)
        requires
            old(self).inv(),
        ensures
            final(self).inv(),
            answered(
                old(self)@.register_resource(caller, resource_hash@),
                old(self)@,
                final(self)@,
                res,
            ),
    {
        if self.find(caller).is_none() {
            return Err(Error::SenderNotRegistered);
        }
        self.owners.insert(resource_hash, caller);
        Ok(())
    }

    /// Moves the amount from one account to another, if the first holds as much.
    pub fn transfer_balance(&mut self, from: AccountId, to: AccountId, value: u64) -> (res: Result<
        (),
        Error,
    >)
        requires
            old(self).inv(),
        ensures
            final(self).inv(),
            answered(old(self)@.transfer_balance(from, to, value), old(self)@, final(self)@, res),
    {
        let sender_balance = self.held(from);
        if sender_balance < value {
            return Err(Error::InsufficientFunds);
        }
        proof {
            lemma_total_insert(self@.balances, from, (sender_balance - value) as u64);
        }
        self.put(from, sender_balance - value);
        let receiver_balance = self.held(to);
        proof {
            lemma_total_bounds(self@.balances, to);
            lemma_total_insert(self@.balances, to, (receiver_balance + value) as u64);
        }
        self.put(to, receiver_balance + value);
        Ok(())
    }

    /// Moves the amount from one account to another on behalf of a caller,
    /// whose identity plays no part in the outcome.
    pub fn transfer_balance_from_to(
        &mut self,
        caller: AccountId,
        from: AccountId,
        to: AccountId,
        value: u64,
    ) -> (res: Result<(), Error>)
        requires
            old(self).inv(),
        ensures
            final(self).inv(),
            answered(old(self)@.transfer_balance(from, to, value), old(self)@, final(self)@, res),
    {
        self.transfer_balance(from, to, value)
    }

    /// Hands the resource from the caller, who must own it, to another account.
    pub fn transfer_resource(
        &mut self,
        caller: AccountId,
        to: AccountId,
        resource_hash: Vec<u8>,
    ) -> (res: Result<(), Error>)
        requires
            old(self).inv(),
        ensures
            final(self).inv(),
            answered(
                old(self)@.transfer_resource(caller, to, resource_hash@),
                old(self)@,
                final(self)@,
                res,
            ),
    {
        match self.owners.get(&resource_hash) {
            None => {
                return Err(Error::ResourceNotPresent);
            },
            Some(owner) => {
                if owner != caller {
                    return Err(Error::SenderDoesNotOwnResource);
                }
            },
        }
        if self.find(to).is_none() || self.find(caller).is_none() {
            return Err(Error::ReceiverNotRegistered);
        }
        self.owners.insert(resource_hash, to);
        Ok(())
    }
}

} // verus!
