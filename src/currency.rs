use vstd::prelude::*;
use std::collections::HashMap;
use crate::types::{AccountId, DispatchError};

verus! {

/// The balance ledger that holds the voters' funds. The voting engine only
/// moves funds between an account's free and reserved parts through it; the
/// ledger decides whether a reservation can be made.
pub trait ReservableCurrency: Sized {
    /// The balance currently reserved on `who`.
    spec fn reserved_balance(&self, who: AccountId) -> nat;

    /// Whether `amount` can be reserved on `who` right now.
    spec fn can_reserve(&self, who: AccountId, amount: u32) -> bool;

    /// Moves `amount` from the free to the reserved balance of `who`, or fails
    /// and changes nothing.
    fn reserve(&mut self, who: AccountId, amount: u32) -> (r: Result<(), DispatchError>)
        ensures
            r is Ok <==> old(self).can_reserve(who, amount),
            r is Ok ==> final(self).reserved_balance(who) == old(self).reserved_balance(who)
                + amount,
            r is Ok ==> forall|a: AccountId|
                a != who ==> #[trigger] final(self).reserved_balance(a) == old(
                    self,
                ).reserved_balance(a),
            r is Err ==> *final(self) == *old(self),
    ;

    /// Returns up to `amount` of the reserved balance of `who` to its free
    /// balance; the result is the part of `amount` that was not reserved.
    fn unreserve(&mut self, who: AccountId, amount: u32) -> (missing: u32)
        ensures
            old(self).reserved_balance(who) >= amount ==> missing == 0
                && final(self).reserved_balance(who) == old(self).reserved_balance(who) - amount,
            old(self).reserved_balance(who) < amount ==> missing == amount - old(
                self,
            ).reserved_balance(who) && final(self).reserved_balance(who) == 0,
            forall|a: AccountId|
                a != who ==> #[trigger] final(self).reserved_balance(a) == old(
                    self,
                ).reserved_balance(a),
    ;
}

broadcast use vstd::std_specs::hash::group_hash_axioms;

/// An in-memory ledger: a free and a reserved balance per account. A free
/// balance stops at `u64::MAX` when released funds would carry it past.
pub struct Balances {
    free: HashMap<AccountId, u64>,
    reserved: HashMap<AccountId, u64>,
}

pub open spec fn balance_in(m: Map<AccountId, u64>, who: AccountId) -> nat {
    if m.contains_key(who) {
        m[who] as nat
    } else {
        0
    }
}

fn read_balance(m: &HashMap<AccountId, u64>, who: AccountId) -> (r: u64)
    ensures
        r == balance_in(m@, who),
{
    match m.get(&who) {
        Some(v) => *v,
        None => 0,
    }
}

impl Balances {
    pub closed spec fn free_spec(&self, who: AccountId) -> nat {
        balance_in(self.free@, who)
    }

    /// A ledger in which every balance is zero.
    pub fn new() -> (r: Balances)
        ensures
            forall|who: AccountId| #[trigger] r.free_spec(who) == 0 && r.reserved_balance(who) == 0,
    {
        Balances { free: HashMap::new(), reserved: HashMap::new() }
    }

    /// Sets the free balance of `who`.
    pub fn set_free_balance(&mut self, who: AccountId, amount: u64)
        ensures
            final(self).free_spec(who) == amount,
            forall|a: AccountId| a != who ==> #[trigger] final(self).free_spec(a) == old(self).free_spec(a),
            forall|a: AccountId| #[trigger] final(self).reserved_balance(a) == old(self).reserved_balance(a),
    {
        self.free.insert(who, amount);
    }

    pub fn free_balance(&self, who: AccountId) -> (r: u64)
        ensures
            r == self.free_spec(who),
    {
        read_balance(&self.free, who)
    }

    pub fn reserved_balance_of(&self, who: AccountId) -> (r: u64)
        ensures
            r == self.reserved_balance(who),
    {
        read_balance(&self.reserved, who)
    }
}

impl ReservableCurrency for Balances {
    closed spec fn reserved_balance(&self, who: AccountId) -> nat {
        balance_in(self.reserved@, who)
    }

    closed spec fn can_reserve(&self, who: AccountId, amount: u32) -> bool {
        balance_in(self.free@, who) >= amount && balance_in(self.reserved@, who) + amount <= u64::MAX
    }

    fn reserve(&mut self, who: AccountId, amount: u32) -> (r: Result<(), DispatchError>) {
        let free = read_balance(&self.free, who);
        let reserved = read_balance(&self.reserved, who);
        if free < amount as u64 || reserved > u64::MAX - amount as u64 {
            return Err(DispatchError::InsufficientBalance);
        }
        self.free.insert(who, free - amount as u64);
        self.reserved.insert(who, reserved + amount as u64);
        Ok(())
    }

    fn unreserve(&mut self, who: AccountId, amount: u32) -> (missing: u32) {
        let free = read_balance(&self.free, who);
        let reserved = read_balance(&self.reserved, who);
        let actual: u64 = if reserved < amount as u64 {
            reserved
        } else {
            amount as u64
        };
        self.reserved.insert(who, reserved - actual);
        self.free.insert(who, free.saturating_add(actual));
        (amount as u64 - actual) as u32
    }
}

} // verus!
