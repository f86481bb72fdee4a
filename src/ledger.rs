//! The share ledger: balances, allowances and the total supply.
//!
//! Accounts are identified by a `u64`. Every operation that changes a balance
//! changes the supply by the same amount, so the supply always equals the sum
//! of all balances.
use crate::error::Error;
use crate::table::{
    all_nonneg, keys_distinct, lemma_lookup_absent, lemma_lookup_at, lemma_lookup_le_total,
    lemma_lookup_push, lemma_lookup_update, lemma_total_update, lookup, total,
};
use vstd::prelude::*;

verus! {

/// Balances by account, allowances by (owner, spender), and the share supply.
pub struct Ledger {
    balances: Vec<(u64, i128)>,
    allowances: Vec<((u64, u64), i128)>,
    supply: i128,
}

impl Ledger {
    /// The shares held by `account` (zero when it never held any).
    pub closed spec fn balance(&self, account: u64) -> int {
        lookup(self.balances@, account)
    }

    /// The shares that `spender` may move out of `owner`'s balance.
    pub closed spec fn allowance_of(&self, owner: u64, spender: u64) -> int {
        lookup(self.allowances@, (owner, spender))
    }

    /// The total share supply.
    pub closed spec fn supply(&self) -> int {
        self.supply as int
    }

    /// The sum of the balances of all accounts.
    pub closed spec fn sum_of_balances(&self) -> int {
        total(self.balances@)
    }

    /// The ledger's invariant: one entry per key, no negative amount, and the
    /// supply equal to the sum of all balances.
    pub closed spec fn wf(&self) -> bool {
        &&& keys_distinct(self.balances@)
        &&& all_nonneg(self.balances@)
        &&& keys_distinct(self.allowances@)
        &&& all_nonneg(self.allowances@)
        &&& total(self.balances@) == self.supply
    }

    /// What a well-formed ledger guarantees of its readings.
    pub proof fn lemma_wf(&self, account: u64, owner: u64, spender: u64)
        requires
            self.wf(),
        ensures
            self.supply() == self.sum_of_balances(),
            0 <= self.balance(account) <= self.supply(),
            0 <= self.allowance_of(owner, spender) <= i128::MAX,
            0 <= self.supply() <= i128::MAX,
    {
        lemma_lookup_le_total(self.balances@, account);
        self.lemma_allowance_range(owner, spender);
    }

    proof fn lemma_allowance_range(&self, owner: u64, spender: u64)
        requires
            keys_distinct(self.allowances@),
            all_nonneg(self.allowances@),
        ensures
            0 <= self.allowance_of(owner, spender) <= i128::MAX,
    {
        let s = self.allowances@;
        if exists|i: int| 0 <= i < s.len() && s[i].0 == (owner, spender) {
            let i = choose|i: int| 0 <= i < s.len() && s[i].0 == (owner, spender);
            lemma_lookup_at(s, i);
        } else {
            lemma_lookup_absent(s, (owner, spender));
        }
    }

    /// An empty ledger: no balances, no allowances, no supply.
    pub fn new() -> (r: Ledger)
        ensures
            r.wf(),
            r.supply() == 0,
            forall|a: u64| r.balance(a) == 0,
            forall|o: u64, s: u64| r.allowance_of(o, s) == 0,
    {
        Ledger { balances: Vec::new(), allowances: Vec::new(), supply: 0 }
    }

    fn find_balance(&self, account: u64) -> (r: Option<usize>)
        ensures
            match r {
                Some(i) => i < self.balances@.len() && self.balances@[i as int].0 == account,
                None => forall|i: int|
                    0 <= i < self.balances@.len() ==> self.balances@[i].0 != account,
            },
    {
        let mut i: usize = 0;
        while i < self.balances.len()
            invariant
                i <= self.balances@.len(),
                forall|j: int| 0 <= j < i ==> self.balances@[j].0 != account,
            decreases self.balances@.len() - i,
        {
            if self.balances[i].0 == account {
                return Some(i);
            }
            i = i + 1;
        }
        None
    }

    fn find_allowance(&self, owner: u64, spender: u64) -> (r: Option<usize>)
        ensures
            match r {
                Some(i) => i < self.allowances@.len() && self.allowances@[i as int].0 == (
                owner,
                spender,
                ),
                None => forall|i: int|
                    0 <= i < self.allowances@.len() ==> self.allowances@[i].0 != (owner, spender),
            },
    {
        let mut i: usize = 0;
        while i < self.allowances.len()
            invariant
                i <= self.allowances@.len(),
                forall|j: int| 0 <= j < i ==> self.allowances@[j].0 != (owner, spender),
            decreases self.allowances@.len() - i,
        {
            let key = self.allowances[i].0;
            if key.0 == owner && key.1 == spender {
                return Some(i);
            }
            i = i + 1;
        }
        None
    }

    /// The shares held by `account`.
    pub fn balance_of(&self, account: u64) -> (r: i128)
        requires
            self.wf(),
        ensures
            r == self.balance(account),
    {
        self.read_balance(account)
    }

    fn read_balance(&self, account: u64) -> (r: i128)
        requires
            keys_distinct(self.balances@),
        ensures
            r == lookup(self.balances@, account),
    {
        match self.find_balance(account) {
            Some(i) => {
                proof {
                    lemma_lookup_at(self.balances@, i as int);
                }
                self.balances[i].1
            },
            None => {
                proof {
                    lemma_lookup_absent(self.balances@, account);
                }
                0
            },
        }
    }

    /// The shares that `spender` may move out of `owner`'s balance.
    pub fn allowance(&self, owner: u64, spender: u64) -> (r: i128)
        requires
            self.wf(),
        ensures
            r == self.allowance_of(owner, spender),
    {
        match self.find_allowance(owner, spender) {
            Some(i) => {
                proof {
                    lemma_lookup_at(self.allowances@, i as int);
                }
                self.allowances[i].1
            },
            None => {
                proof {
                    lemma_lookup_absent(self.allowances@, (owner, spender));
                }
                0
            },
        }
    }

    /// The total share supply.
    pub fn total_supply(&self) -> (r: i128)
        ensures
            r == self.supply(),
    {
        self.supply
    }

    /// Stores `amount` as `account`'s balance; the supply is left to the caller.
    fn put_balance(&mut self, account: u64, amount: i128)
        requires
            keys_distinct(old(self).balances@),
            all_nonneg(old(self).balances@),
            amount >= 0,
        ensures
            keys_distinct(final(self).balances@),
            all_nonneg(final(self).balances@),
            final(self).allowances == old(self).allowances,
            final(self).supply == old(self).supply,
            total(final(self).balances@) == total(old(self).balances@) - lookup(
                old(self).balances@,
                account,
            ) + amount,
            forall|a: u64|
                #![trigger lookup(final(self).balances@, a)]
                lookup(final(self).balances@, a) == if a == account {
                    amount as int
                } else {
                    lookup(old(self).balances@, a)
                },
    {
        let ghost s = self.balances@;
        match self.find_balance(account) {
            Some(i) => {
                proof {
                    lemma_lookup_at(s, i as int);
                    lemma_total_update(s, i as int, amount);
                    assert forall|a: u64| #[trigger]
                        lookup(s.update(i as int, (s[i as int].0, amount)), a) == if a
                            == account {
                            amount as int
                        } else {
                            lookup(s, a)
                        } by {
                        lemma_lookup_update(s, i as int, amount, a);
                    }
                    lemma_lookup_update(s, i as int, amount, account);
                }
                self.balances.set(i, (account, amount));
                assert(self.balances@ =~= s.update(i as int, (s[i as int].0, amount)));
            },
            None => {
                proof {
                    lemma_lookup_absent(s, account);
                    assert forall|a: u64| #[trigger]
                        lookup(s.push((account, amount)), a) == if a == account {
                            amount as int
                        } else {
                            lookup(s, a)
                        } by {
                        lemma_lookup_push(s, (account, amount), a);
                    }
                    lemma_lookup_push(s, (account, amount), account);
                }
                self.balances.push((account, amount));
            },
        }
    }

    /// Sets the allowance of `spender` over `owner`'s shares to `amount`,
    /// replacing the previous one.
    pub fn set_allowance(&mut self, owner: u64, spender: u64, amount: i128)
        requires
            old(self).wf(),
            amount >= 0,
        ensures
            final(self).wf(),
            final(self).allowance_of(owner, spender) == amount,
            forall|o: u64, s: u64|
                (o, s) != (owner, spender) ==> #[trigger] final(self).allowance_of(o, s)
                    == old(self).allowance_of(o, s),
            forall|a: u64| #[trigger] final(self).balance(a) == old(self).balance(a),
            final(self).supply() == old(self).supply(),
    {
        let ghost s = self.allowances@;
        let key = (owner, spender);
        match self.find_allowance(owner, spender) {
            Some(i) => {
                proof {
                    assert forall|k: (u64, u64)| #[trigger]
                        lookup(s.update(i as int, (s[i as int].0, amount)), k) == if k == key {
                            amount as int
                        } else {
                            lookup(s, k)
                        } by {
                        lemma_lookup_update(s, i as int, amount, k);
                    }
                    lemma_lookup_update(s, i as int, amount, key);
                }
                self.allowances.set(i, (key, amount));
                assert(self.allowances@ =~= s.update(i as int, (s[i as int].0, amount)));
            },
            None => {
                proof {
                    assert forall|k: (u64, u64)| #[trigger]
                        lookup(s.push((key, amount)), k) == if k == key {
                            amount as int
                        } else {
                            lookup(s, k)
                        } by {
                        lemma_lookup_push(s, (key, amount), k);
                    }
                    lemma_lookup_push(s, (key, amount), key);
                }
                self.allowances.push((key, amount));
            },
        }
        assert forall|o: u64, sp: u64|
            (o, sp) != (owner, spender) implies #[trigger] self.allowance_of(o, sp)
            == old(self).allowance_of(o, sp) by {
            assert(lookup(self.allowances@, (o, sp)) == lookup(s, (o, sp)));
        }
    }

    /// Creates `amount` new shares for `account`: its balance and the supply
    /// both grow by `amount`. Refused with `Overflow`, changing nothing, when
    /// the supply would exceed the largest amount.
    pub fn mint(&mut self, account: u64, amount: i128) -> (r: Result<(), Error>)
        requires
            old(self).wf(),
            amount >= 0,
        ensures
            final(self).wf(),
            r is Err <==> old(self).supply() + amount > i128::MAX,
            r is Err ==> r == Err::<(), Error>(Error::Overflow) && *final(self) == *old(self),
            r is Ok ==> {
                &&& final(self).supply() == old(self).supply() + amount
                &&& final(self).balance(account) == old(self).balance(account) + amount
                &&& forall|a: u64|
                    a != account ==> #[trigger] final(self).balance(a) == old(self).balance(a)
            },
            forall|o: u64, s: u64| #[trigger]
                final(self).allowance_of(o, s) == old(self).allowance_of(o, s),
    {
        if self.supply > i128::MAX - amount {
            return Err(Error::Overflow);
        }
        proof {
            lemma_lookup_le_total(self.balances@, account);
        }
        let balance = self.balance_of(account);
        self.put_balance(account, balance + amount);
        self.supply = self.supply + amount;
        Ok(())
    }

    /// Destroys `amount` of `account`'s shares: its balance and the supply
    /// both shrink by `amount`. Refused with `InsufficientBalance`, changing
    /// nothing, when the balance is smaller than `amount`.
    pub fn burn(&mut self, account: u64, amount: i128) -> (r: Result<(), Error>)
        requires
            old(self).wf(),
            amount >= 0,
        ensures
            final(self).wf(),
            r is Err <==> old(self).balance(account) < amount,
            r is Err ==> r == Err::<(), Error>(Error::InsufficientBalance) && *final(self)
                == *old(self),
            r is Ok ==> {
                &&& final(self).supply() == old(self).supply() - amount
                &&& final(self).balance(account) == old(self).balance(account) - amount
                &&& forall|a: u64|
                    a != account ==> #[trigger] final(self).balance(a) == old(self).balance(a)
            },
            forall|o: u64, s: u64| #[trigger]
                final(self).allowance_of(o, s) == old(self).allowance_of(o, s),
    {
        let balance = self.balance_of(account);
        if balance < amount {
            return Err(Error::InsufficientBalance);
        }
        proof {
            lemma_lookup_le_total(self.balances@, account);
        }
        self.put_balance(account, balance - amount);
        self.supply = self.supply - amount;
        Ok(())
    }

    /// Moves `amount` shares from `from` to `to`; the supply is unchanged.
    /// Refused with `InsufficientBalance`, changing nothing, when `from`
    /// holds fewer than `amount`. A move to the same account succeeds and
    /// leaves every balance as it was.
    pub fn transfer(&mut self, from: u64, to: u64, amount: i128) -> (r: Result<(), Error>)
        requires
            old(self).wf(),
            amount >= 0,
        ensures
            final(self).wf(),
            r is Err <==> old(self).balance(from) < amount,
            r is Err ==> r == Err::<(), Error>(Error::InsufficientBalance) && *final(self)
                == *old(self),
            r is Ok ==> {
                &&& final(self).supply() == old(self).supply()
                &&& from != to ==> final(self).balance(from) == old(self).balance(from) - amount
                &&& from != to ==> final(self).balance(to) == old(self).balance(to) + amount
                &&& forall|a: u64|
                    (a != from && a != to) || from == to ==> #[trigger] final(self).balance(a)
                        == old(self).balance(a)
            },
            forall|o: u64, s: u64| #[trigger]
                final(self).allowance_of(o, s) == old(self).allowance_of(o, s),
    {
        let from_balance = self.balance_of(from);
        if from_balance < amount {
            return Err(Error::InsufficientBalance);
        }
        self.put_balance(from, from_balance - amount);
        proof {
            lemma_lookup_le_total(self.balances@, to);
        }
        let to_balance = self.read_balance(to);
        self.put_balance(to, to_balance + amount);
        Ok(())
    }

    /// Every account with its balance, each account once. Accounts left out
    /// hold nothing.
    pub fn balance_entries(&self) -> (r: Vec<(u64, i128)>)
        requires
            self.wf(),
        ensures
            keys_distinct(r@),
            forall|i: int| 0 <= i < r@.len() ==> r@[i].1 == self.balance(#[trigger] r@[i].0),
            forall|a: u64|
                self.balance(a) != 0 ==> exists|i: int| 0 <= i < r@.len() && r@[i].0 == a,
    {
        let mut r: Vec<(u64, i128)> = Vec::new();
        let mut i: usize = 0;
        while i < self.balances.len()
            invariant
                i <= self.balances@.len(),
                r@ == self.balances@.subrange(0, i as int),
            decreases self.balances@.len() - i,
        {
            r.push(self.balances[i]);
            i = i + 1;
            assert(r@ =~= self.balances@.subrange(0, i as int));
        }
        assert(r@ =~= self.balances@);
        proof {
            assert forall|i: int| 0 <= i < r@.len() implies r@[i].1 == self.balance(
                #[trigger] r@[i].0,
            ) by {
                lemma_lookup_at(self.balances@, i);
            }
            assert forall|a: u64| self.balance(a) != 0 implies exists|i: int|
                0 <= i < r@.len() && r@[i].0 == a by {
                if forall|i: int| 0 <= i < r@.len() ==> r@[i].0 != a {
                    lemma_lookup_absent(self.balances@, a);
                }
            }
        }
        r
    }

    /// Every (owner, spender) pair with its allowance, each pair once. Pairs
    /// left out have none.
    pub fn allowance_entries(&self) -> (r: Vec<((u64, u64), i128)>)
        requires
            self.wf(),
        ensures
            keys_distinct(r@),
            forall|i: int|
                0 <= i < r@.len() ==> r@[i].1 == self.allowance_of(
                    (#[trigger] r@[i].0).0,
                    r@[i].0.1,
                ),
            forall|o: u64, s: u64|
                self.allowance_of(o, s) != 0 ==> exists|i: int|
                    0 <= i < r@.len() && r@[i].0 == (o, s),
    {
        let mut r: Vec<((u64, u64), i128)> = Vec::new();
        let mut i: usize = 0;
        while i < self.allowances.len()
            invariant
                i <= self.allowances@.len(),
                r@ == self.allowances@.subrange(0, i as int),
            decreases self.allowances@.len() - i,
        {
            r.push(self.allowances[i]);
            i = i + 1;
            assert(r@ =~= self.allowances@.subrange(0, i as int));
        }
        assert(r@ =~= self.allowances@);
        proof {
            assert forall|i: int| 0 <= i < r@.len() implies r@[i].1 == self.allowance_of(
                (#[trigger] r@[i].0).0,
                r@[i].0.1,
            ) by {
                lemma_lookup_at(self.allowances@, i);
            }
            assert forall|o: u64, s: u64| self.allowance_of(o, s) != 0 implies exists|i: int|
                0 <= i < r@.len() && r@[i].0 == (o, s) by {
                if forall|i: int| 0 <= i < r@.len() ==> r@[i].0 != (o, s) {
                    lemma_lookup_absent(self.allowances@, (o, s));
                }
            }
        }
        r
    }
}

} // verus!
