//! The depositors' share ledger.
//!
//! Each depositor holds a claim ("shares") on the vault's managed funds.
//! The ledger keeps one non-negative balance per address together with the
//! running total of all balances; the total is what the proportional
//! deposit and withdrawal arithmetic divides by.

use vstd::prelude::*;
use crate::errors::ContractError;
use crate::models::Address;

verus! {

pub struct ShareLedger {
    entries: Vec<(Address, i128)>,
    total: i128,
}

spec fn keys_unique(s: Seq<(Address, i128)>) -> bool {
    forall|i: int, j: int|
        0 <= i < j < s.len() ==> (#[trigger] s[i]).0 != (#[trigger] s[j]).0
}

spec fn all_nonneg(s: Seq<(Address, i128)>) -> bool {
    forall|i: int| 0 <= i < s.len() ==> (#[trigger] s[i]).1 >= 0
}

spec fn spec_bal(s: Seq<(Address, i128)>, a: Address) -> i128
    decreases s.len(),
{
    if s.len() == 0 {
        0i128
    } else if s[0].0 == a {
        s[0].1
    } else {
        spec_bal(s.skip(1), a)
    }
}

spec fn spec_sum(s: Seq<(Address, i128)>) -> int
    decreases s.len(),
{
    if s.len() == 0 {
        0
    } else {
        s[0].1 + spec_sum(s.skip(1))
    }
}

proof fn lemma_sum_nonneg(s: Seq<(Address, i128)>)
    requires
        all_nonneg(s),
    ensures
        spec_sum(s) >= 0,
    decreases s.len(),
{
    if s.len() > 0 {
        assert(all_nonneg(s.skip(1)));
        lemma_sum_nonneg(s.skip(1));
    }
}

proof fn lemma_bal_le_sum(s: Seq<(Address, i128)>, a: Address)
    requires
        all_nonneg(s),
    ensures
        0 <= spec_bal(s, a) <= spec_sum(s),
    decreases s.len(),
{
    if s.len() > 0 {
        assert(all_nonneg(s.skip(1)));
        lemma_bal_le_sum(s.skip(1), a);
        lemma_sum_nonneg(s.skip(1));
    }
}

/// Overwriting the unique entry of a key changes exactly that key's balance
/// and shifts the sum by the difference.
proof fn lemma_update(s: Seq<(Address, i128)>, i: int, v: i128)
    requires
        keys_unique(s),
        0 <= i < s.len(),
    ensures
        spec_bal(s.update(i, (s[i].0, v)), s[i].0) == v,
        forall|b: Address| b != s[i].0 ==> spec_bal(s.update(i, (s[i].0, v)), b) == spec_bal(s, b),
        spec_sum(s.update(i, (s[i].0, v))) == spec_sum(s) - s[i].1 + v,
        keys_unique(s.update(i, (s[i].0, v))),
        all_nonneg(s) && v >= 0 ==> all_nonneg(s.update(i, (s[i].0, v))),
    decreases i,
{
    let t = s.update(i, (s[i].0, v));
    if i == 0 {
        assert(t.skip(1) =~= s.skip(1));
        assert(t[0] == (s[0].0, v));
        assert(spec_bal(t, s[0].0) == v);
        assert forall|b: Address| b != s[0].0 implies spec_bal(t, b) == spec_bal(s, b) by {
            assert(spec_bal(t, b) == spec_bal(t.skip(1), b));
            assert(spec_bal(s, b) == spec_bal(s.skip(1), b));
        }
        assert(spec_sum(t) == t[0].1 + spec_sum(t.skip(1)));
        assert(spec_sum(s) == s[0].1 + spec_sum(s.skip(1)));
    } else {
        assert(t[0] == s[0]);
        assert(s[0].0 != s[i].0);
        assert(keys_unique(s.skip(1)));
        assert(t.skip(1) =~= s.skip(1).update(i - 1, (s[i].0, v)));
        assert(s.skip(1)[i - 1] == s[i]);
        lemma_update(s.skip(1), i - 1, v);
        assert(spec_bal(t, s[i].0) == spec_bal(t.skip(1), s[i].0));
        assert(spec_bal(t, s[i].0) == v);
        assert forall|b: Address| b != s[i].0 implies spec_bal(t, b) == spec_bal(s, b) by {
            if s[0].0 != b {
                assert(spec_bal(t, b) == spec_bal(t.skip(1), b));
                assert(spec_bal(s, b) == spec_bal(s.skip(1), b));
            }
        }
        assert(spec_sum(t) == t[0].1 + spec_sum(t.skip(1)));
        assert(spec_sum(s) == s[0].1 + spec_sum(s.skip(1)));
    }
}

/// Appending a fresh key gives it the new balance, leaves every other
/// balance alone, and adds the new balance to the sum.
proof fn lemma_fresh_push(s: Seq<(Address, i128)>, a: Address, v: i128)
    requires
        forall|i: int| 0 <= i < s.len() ==> (#[trigger] s[i]).0 != a,
    ensures
        spec_bal(s.push((a, v)), a) == v,
        forall|b: Address| b != a ==> spec_bal(s.push((a, v)), b) == spec_bal(s, b),
        spec_sum(s.push((a, v))) == spec_sum(s) + v,
        keys_unique(s) ==> keys_unique(s.push((a, v))),
        all_nonneg(s) && v >= 0 ==> all_nonneg(s.push((a, v))),
    decreases s.len(),
{
    let t = s.push((a, v));
    if s.len() == 0 {
        assert(t[0] == (a, v));
        assert(t.skip(1) =~= Seq::<(Address, i128)>::empty());
        assert(spec_bal(t, a) == v);
        assert forall|b: Address| b != a implies spec_bal(t, b) == spec_bal(s, b) by {
            assert(spec_bal(t.skip(1), b) == 0);
        }
        assert(spec_sum(t.skip(1)) == 0);
        assert(spec_sum(t) == spec_sum(s) + v);
    } else {
        assert(t[0] == s[0]);
        assert(s[0].0 != a);
        assert(t.skip(1) =~= s.skip(1).push((a, v)));
        assert forall|i: int| 0 <= i < s.skip(1).len() implies (#[trigger] s.skip(1)[i]).0 != a by {
            assert(s.skip(1)[i] == s[i + 1]);
        }
        lemma_fresh_push(s.skip(1), a, v);
        assert(spec_bal(t, a) == spec_bal(t.skip(1), a));
        assert(spec_bal(t, a) == v);
        assert forall|b: Address| b != a implies spec_bal(t, b) == spec_bal(s, b) by {
            if s[0].0 != b {
                assert(spec_bal(t, b) == spec_bal(t.skip(1), b));
                assert(spec_bal(s, b) == spec_bal(s.skip(1), b));
            }
        }
        assert(spec_sum(t) == t[0].1 + spec_sum(t.skip(1)));
        assert(spec_sum(t) == spec_sum(s) + v);
    }
}

impl ShareLedger {
    pub closed spec fn inv(&self) -> bool {
        &&& keys_unique(self.entries@)
        &&& all_nonneg(self.entries@)
        &&& self.total == spec_sum(self.entries@)
        &&& self.total >= 0
    }

    /// The share balance held by `a`; an address that never received shares
    /// holds zero.
    pub closed spec fn spec_balance(&self, a: Address) -> i128 {
        spec_bal(self.entries@, a)
    }

    /// The sum of all share balances.
    pub closed spec fn spec_total(&self) -> i128 {
        self.total
    }

    /// Every single balance lies between zero and the total supply.
    pub proof fn lemma_balance_le_total(&self, a: Address)
        requires
            self.inv(),
        ensures
            0 <= self.spec_balance(a) <= self.spec_total(),
    {
        lemma_bal_le_sum(self.entries@, a);
    }

    pub fn new() -> (r: ShareLedger)
        ensures
            r.inv(),
            r.spec_total() == 0,
            forall|a: Address| r.spec_balance(a) == 0,
    {
        let r = ShareLedger { entries: Vec::new(), total: 0 };
        proof {
            assert(forall|a: Address| spec_bal(r.entries@, a) == 0);
        }
        r
    }

    /// Index of the entry holding `a`'s balance, if one exists.
    fn find(&self, a: Address) -> (r: Option<usize>)
        ensures
            match r {
                Some(i) => i < self.entries@.len() && self.entries@[i as int].0 == a
                    && self.entries@[i as int].1 == self.spec_balance(a),
                None => self.spec_balance(a) == 0 && forall|j: int|
                    0 <= j < self.entries@.len() ==> (#[trigger] self.entries@[j]).0 != a,
            },
    {
        let s = &self.entries;
        proof {
            assert(s@.skip(0) =~= s@);
        }
        let mut i: usize = 0;
        while i < s.len()
            invariant
                s@ == self.entries@,
                i <= s@.len(),
                spec_bal(s@, a) == spec_bal(s@.skip(i as int), a),
                forall|j: int| 0 <= j < i ==> (#[trigger] s@[j]).0 != a,
            decreases s@.len() - i,
        {
            proof {
                assert(s@.skip(i as int)[0] == s@[i as int]);
                assert(s@.skip(i as int).skip(1) =~= s@.skip(i + 1));
            }
            if s[i].0 == a {
                return Some(i);
            }
            i = i + 1;
        }
        None
    }

    pub fn balance_of(&self, a: Address) -> (r: i128)
        requires
            self.inv(),
        ensures
            r == self.spec_balance(a),
            0 <= r,
    {
        proof {
            lemma_bal_le_sum(self.entries@, a);
        }
        match self.find(a) {
            Some(i) => self.entries[i].1,
            None => 0,
        }
    }

    pub fn total(&self) -> (r: i128)
        ensures
            r == self.spec_total(),
            self.inv() ==> 0 <= r,
    {
        self.total
    }

    /// Mint `amount` shares to `a`.  Fails, leaving the ledger untouched,
    /// only when the total supply would leave the representable range.
    pub fn credit(&mut self, a: Address, amount: i128) -> (r: Result<(), ContractError>)
        requires
            old(self).inv(),
            amount >= 0,
        ensures
            final(self).inv(),
            old(self).spec_total() + amount <= i128::MAX ==> {
                &&& r is Ok
                &&& final(self).spec_balance(a) == old(self).spec_balance(a) + amount
                &&& forall|b: Address|
                    b != a ==> final(self).spec_balance(b) == old(self).spec_balance(b)
                &&& final(self).spec_total() == old(self).spec_total() + amount
            },
            old(self).spec_total() + amount > i128::MAX ==> r == Err::<(), ContractError>(
                ContractError::ArithmeticOverflow,
            ) && *final(self) == *old(self),
    {
        if amount > i128::MAX - self.total {
            return Err(ContractError::ArithmeticOverflow);
        }
        match self.find(a) {
            Some(i) => {
                proof {
                    lemma_bal_le_sum(self.entries@, a);
                    lemma_update(self.entries@, i as int, (self.entries@[i as int].1 + amount) as i128);
                }
                let nb = self.entries[i].1 + amount;
                let slot = &mut self.entries[i];
                *slot = (a, nb);
            },
            None => {
                proof {
                    lemma_fresh_push(self.entries@, a, amount);
                }
                self.entries.push((a, amount));
            },
        }
        self.total = self.total + amount;
        Ok(())
    }

    /// Burn `amount` shares held by `a`.  Fails, leaving the ledger
    /// untouched, exactly when `a` holds fewer than `amount` shares.
    pub fn debit(&mut self, a: Address, amount: i128) -> (r: Result<(), ContractError>)
        requires
            old(self).inv(),
            amount >= 0,
        ensures
            final(self).inv(),
            amount <= old(self).spec_balance(a) ==> {
                &&& r is Ok
                &&& final(self).spec_balance(a) == old(self).spec_balance(a) - amount
                &&& forall|b: Address|
                    b != a ==> final(self).spec_balance(b) == old(self).spec_balance(b)
                &&& final(self).spec_total() == old(self).spec_total() - amount
            },
            amount > old(self).spec_balance(a) ==> r == Err::<(), ContractError>(
                ContractError::InsufficientBalance,
            ) && *final(self) == *old(self),
    {
        match self.find(a) {
            Some(i) => {
                let bal = self.entries[i].1;
                if amount > bal {
                    return Err(ContractError::InsufficientBalance);
                }
                proof {
                    lemma_bal_le_sum(self.entries@, a);
                    lemma_update(self.entries@, i as int, (bal - amount) as i128);
                }
                let nb = bal - amount;
                let slot = &mut self.entries[i];
                *slot = (a, nb);
                self.total = self.total - amount;
                Ok(())
            },
            None => {
                if amount > 0 {
                    Err(ContractError::InsufficientBalance)
                } else {
                    Ok(())
                }
            },
        }
    }
}

} // verus!
