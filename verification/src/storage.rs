//! The vault's persisted state and its storage-level operations.
//!
//! The state is a typed record: the indexed configuration families (tokens,
//! ratios, strategies) with their authoritative counters, the idle-funds
//! ledger, the share ledger, and the role addresses.  Values that only
//! `initialize` can establish are held as `Option` so that reading them
//! beforehand fails with an explicit error instead of producing a default.

use vstd::prelude::*;
use crate::errors::ContractError;
use crate::models::{Address, StrategyParams};
use crate::shares::ShareLedger;
use crate::slot_map::SlotMap;

verus! {

pub struct Vault {
    /// Supported token addresses, by dense index.
    pub tokens: SlotMap<Address>,
    /// Allocation ratio paired 1:1 with each token index.
    pub ratios: SlotMap<u32>,
    /// Registered strategies, by dense index.
    pub strategies: SlotMap<StrategyParams>,
    /// Authoritative count of token indices; bound for iteration.
    pub total_tokens: Option<u32>,
    /// Authoritative count of strategy indices; bound for iteration.
    pub total_strategies: Option<u32>,
    /// Funds held by the vault but not deployed to any strategy.
    pub idle_funds: Option<i128>,
    /// Depositors' proportional claims on the managed funds.
    pub shares: ShareLedger,
    pub manager: Option<Address>,
    pub emergency_manager: Option<Address>,
    pub fee_receiver: Option<Address>,
    pub defindex_receiver: Option<Address>,
    /// Whether `initialize` has run; it may run exactly once.
    pub initialized: bool,
}

/// The outcome `receive_idle_funds` is specified against: the ledger grows by
/// `amount`, or is rejected for a negative amount or a balance that would
/// leave the representable range.
pub open spec fn receive_outcome(balance: int, amount: int) -> Result<int, ContractError> {
    if amount < 0 {
        Err(ContractError::InvalidArgument)
    } else if balance + amount > i128::MAX {
        Err(ContractError::ArithmeticOverflow)
    } else {
        Ok(balance + amount)
    }
}

/// The outcome `spend_idle_funds` is specified against: the ledger shrinks by
/// `amount`, or is rejected for a negative amount or one exceeding the
/// balance.
pub open spec fn spend_outcome(balance: int, amount: int) -> Result<int, ContractError> {
    if amount < 0 {
        Err(ContractError::InvalidArgument)
    } else if amount > balance {
        Err(ContractError::InsufficientBalance)
    } else {
        Ok(balance - amount)
    }
}

/// Receiving `a` and then `b` lands on the same balance as receiving
/// `a + b` at once, whenever neither path overflows.
pub proof fn lemma_receive_additive(balance: int, a: int, b: int)
    requires
        0 <= a,
        0 <= b,
        0 <= balance,
        balance + a + b <= i128::MAX,
    ensures
        receive_outcome(balance, a) matches Ok(mid) && receive_outcome(mid, b) == receive_outcome(
            balance,
            a + b,
        ),
{
}

/// Tokens come back in exactly the order they were written: in any vault
/// state reached by writing `ts[i]` at each index `i` and setting the
/// counter to `ts.len()` — as `set_token` and `initialize` are specified to
/// do — a sequence satisfying what `get_tokens` ensures of its result is
/// `ts` itself, and its length is what `get_total_tokens` returns.
pub proof fn lemma_tokens_in_write_order(v: Vault, ts: Seq<Address>, out: Seq<Address>)
    requires
        ts.len() <= u32::MAX,
        v.total_tokens == Some(ts.len() as u32),
        forall|i: int| 0 <= i < ts.len() ==> #[trigger] v.tokens@.contains_key(i as u32),
        forall|i: int| 0 <= i < ts.len() ==> #[trigger] v.tokens@[i as u32] == ts[i],
        out.len() == ts.len(),
        forall|i: int| 0 <= i < out.len() ==> #[trigger] out[i] == v.tokens@[i as u32],
    ensures
        out =~= ts,
{
}

impl Vault {
    /// Well-formedness: the ledgers are consistent and, once the vault is
    /// active, everything `initialize` establishes is present.
    pub open spec fn inv(&self) -> bool {
        &&& self.shares.inv()
        &&& (self.idle_funds matches Some(b) ==> b >= 0)
        &&& (self.initialized ==> {
            &&& self.idle_funds is Some
            &&& self.total_tokens is Some
            &&& self.total_strategies is Some
            &&& self.manager is Some
            &&& self.emergency_manager is Some
            &&& self.fee_receiver is Some
            &&& self.defindex_receiver is Some
        })
    }

    /// A fresh, uninitialized vault.
    pub fn new() -> (r: Vault)
        ensures
            r.inv(),
            !r.initialized,
            r.tokens@ == Map::<u32, Address>::empty(),
            r.ratios@ == Map::<u32, u32>::empty(),
            r.strategies@ == Map::<u32, StrategyParams>::empty(),
            r.total_tokens is None,
            r.total_strategies is None,
            r.idle_funds is None,
            r.shares.spec_total() == 0,
            forall|a: Address| r.shares.spec_balance(a) == 0,
            r.manager is None,
            r.emergency_manager is None,
            r.fee_receiver is None,
            r.defindex_receiver is None,
    {
        Vault {
            tokens: SlotMap::new(),
            ratios: SlotMap::new(),
            strategies: SlotMap::new(),
            total_tokens: None,
            total_strategies: None,
            idle_funds: None,
            shares: ShareLedger::new(),
            manager: None,
            emergency_manager: None,
            fee_receiver: None,
            defindex_receiver: None,
            initialized: false,
        }
    }

    // Token management

    pub fn set_token(&mut self, index: u32, token: Address)
        ensures
            final(self).tokens@ == old(self).tokens@.insert(index, token),
            (*final(self) == Vault { tokens: final(self).tokens, ..*old(self) }),
    {
        self.tokens.set(index, token);
    }

    /// The token stored at `index`; `NotFound` when the index was never set.
    pub fn get_token(&self, index: u32) -> (r: Result<Address, ContractError>)
        ensures
            match r {
                Ok(t) => self.tokens@.contains_key(index) && t == self.tokens@[index],
                Err(e) => !self.tokens@.contains_key(index) && e == ContractError::NotFound,
            },
    {
        match self.tokens.get(index) {
            Some(t) => Ok(*t),
            None => Err(ContractError::NotFound),
        }
    }

    /// The ordered sequence `[token_0 .. token_{n-1}]` for `n` the
    /// authoritative token count.  Fails fast with `NotFound` if the count
    /// covers an index that was never populated, and with `NotInitialized`
    /// if no count was ever stored.
    pub fn get_tokens(&self) -> (r: Result<Vec<Address>, ContractError>)
        ensures
            match r {
                Ok(v) => {
                    &&& self.total_tokens matches Some(n)
                    &&& v@.len() == n
                    &&& forall|i: int|
                        0 <= i < v@.len() ==> #[trigger] self.tokens@.contains_key(i as u32)
                    &&& forall|i: int|
                        0 <= i < v@.len() ==> #[trigger] v@[i] == self.tokens@[i as u32]
                },
                Err(e) => match self.total_tokens {
                    None => e == ContractError::NotInitialized,
                    Some(n) => e == ContractError::NotFound && exists|i: u32|
                        i < n && !(#[trigger] self.tokens@.contains_key(i)),
                },
            },
    {
        let n = match self.total_tokens {
            None => {
                return Err(ContractError::NotInitialized);
            },
            Some(n) => n,
        };
        let mut out: Vec<Address> = Vec::new();
        let mut i: u32 = 0;
        while i < n
            invariant
                i <= n,
                self.total_tokens == Some(n),
                out@.len() == i,
                forall|j: int| 0 <= j < i ==> #[trigger] self.tokens@.contains_key(j as u32),
                forall|j: int| 0 <= j < i ==> #[trigger] out@[j] == self.tokens@[j as u32],
            decreases n - i,
        {
            match self.get_token(i) {
                Ok(t) => {
                    let ghost prev = out@;
                    out.push(t);
                    proof {
                        assert forall|j: int|
                            0 <= j < i + 1 implies #[trigger] self.tokens@.contains_key(j as u32) by {
                            if j == i {
                                assert(j as u32 == i);
                            }
                        }
                        assert forall|j: int|
                            0 <= j < i + 1 implies #[trigger] out@[j] == self.tokens@[j as u32] by {
                            if j < i {
                                assert(out@[j] == prev[j]);
                            } else {
                                assert(out@[j] == t);
                                assert(j as u32 == i);
                            }
                        }
                    }
                },
                Err(_) => {
                    return Err(ContractError::NotFound);
                },
            }
            i = i + 1;
        }
        Ok(out)
    }

    // Ratio management

    pub fn set_ratio(&mut self, index: u32, ratio: u32)
        ensures
            final(self).ratios@ == old(self).ratios@.insert(index, ratio),
            (*final(self) == Vault { ratios: final(self).ratios, ..*old(self) }),
    {
        self.ratios.set(index, ratio);
    }

    /// The ratio stored at `index`; `NotFound` when the index was never set.
    pub fn get_ratio(&self, index: u32) -> (r: Result<u32, ContractError>)
        ensures
            match r {
                Ok(x) => self.ratios@.contains_key(index) && x == self.ratios@[index],
                Err(e) => !self.ratios@.contains_key(index) && e == ContractError::NotFound,
            },
    {
        match self.ratios.get(index) {
            Some(x) => Ok(*x),
            None => Err(ContractError::NotFound),
        }
    }

    pub fn set_total_tokens(&mut self, n: u32)
        ensures
            (*final(self) == Vault { total_tokens: Some(n), ..*old(self) }),
    {
        self.total_tokens = Some(n);
    }

    pub fn get_total_tokens(&self) -> (r: Result<u32, ContractError>)
        ensures
            match self.total_tokens {
                Some(n) => r == Ok::<u32, ContractError>(n),
                None => r == Err::<u32, ContractError>(ContractError::NotInitialized),
            },
    {
        match self.total_tokens {
            Some(n) => Ok(n),
            None => Err(ContractError::NotInitialized),
        }
    }

    // Strategy management

    pub fn set_strategy(&mut self, index: u32, strategy: StrategyParams)
        ensures
            final(self).strategies@ == old(self).strategies@.insert(index, strategy),
            (*final(self) == Vault { strategies: final(self).strategies, ..*old(self) }),
    {
        self.strategies.set(index, strategy);
    }

    /// The strategy stored at `index`; `NotFound` when the index was never
    /// set.
    pub fn get_strategy(&self, index: u32) -> (r: Result<StrategyParams, ContractError>)
        ensures
            match r {
                Ok(s) => self.strategies@.contains_key(index) && s == self.strategies@[index],
                Err(e) => !self.strategies@.contains_key(index) && e == ContractError::NotFound,
            },
    {
        match self.strategies.get(index) {
            Some(s) => Ok(s.clone()),
            None => Err(ContractError::NotFound),
        }
    }

    pub fn set_total_strategies(&mut self, n: u32)
        ensures
            (*final(self) == Vault { total_strategies: Some(n), ..*old(self) }),
    {
        self.total_strategies = Some(n);
    }

    pub fn get_total_strategies(&self) -> (r: Result<u32, ContractError>)
        ensures
            match self.total_strategies {
                Some(n) => r == Ok::<u32, ContractError>(n),
                None => r == Err::<u32, ContractError>(ContractError::NotInitialized),
            },
    {
        match self.total_strategies {
            Some(n) => Ok(n),
            None => Err(ContractError::NotInitialized),
        }
    }

    /// The ordered sequence of all registered strategies, under the same
    /// fail-fast rules as `get_tokens`.
    pub fn get_strategies(&self) -> (r: Result<Vec<StrategyParams>, ContractError>)
        ensures
            match r {
                Ok(v) => {
                    &&& self.total_strategies matches Some(n)
                    &&& v@.len() == n
                    &&& forall|i: int|
                        0 <= i < v@.len() ==> #[trigger] self.strategies@.contains_key(i as u32)
                    &&& forall|i: int|
                        0 <= i < v@.len() ==> #[trigger] v@[i] == self.strategies@[i as u32]
                },
                Err(e) => match self.total_strategies {
                    None => e == ContractError::NotInitialized,
                    Some(n) => e == ContractError::NotFound && exists|i: u32|
                        i < n && !(#[trigger] self.strategies@.contains_key(i)),
                },
            },
    {
        let n = match self.total_strategies {
            None => {
                return Err(ContractError::NotInitialized);
            },
            Some(n) => n,
        };
        let mut out: Vec<StrategyParams> = Vec::new();
        let mut i: u32 = 0;
        while i < n
            invariant
                i <= n,
                self.total_strategies == Some(n),
                out@.len() == i,
                forall|j: int| 0 <= j < i ==> #[trigger] self.strategies@.contains_key(j as u32),
                forall|j: int| 0 <= j < i ==> #[trigger] out@[j] == self.strategies@[j as u32],
            decreases n - i,
        {
            match self.get_strategy(i) {
                Ok(s) => {
                    let ghost prev = out@;
                    out.push(s);
                    proof {
                        assert forall|j: int|
                            0 <= j < i + 1 implies #[trigger] self.strategies@.contains_key(
                            j as u32) by {
                            if j == i {
                                assert(j as u32 == i);
                            }
                        }
                        assert forall|j: int|
                            0 <= j < i + 1 implies #[trigger] out@[j] == self.strategies@[j as u32] by {
                            if j < i {
                                assert(out@[j] == prev[j]);
                            } else {
                                assert(out@[j] == s);
                                assert(j as u32 == i);
                            }
                        }
                    }
                },
                Err(_) => {
                    return Err(ContractError::NotFound);
                },
            }
            i = i + 1;
        }
        Ok(out)
    }

    // Idle funds management

    fn set_idle_funds(&mut self, amount: i128)
        requires
            amount >= 0,
        ensures
            (*final(self) == Vault { idle_funds: Some(amount), ..*old(self) }),
    {
        self.idle_funds = Some(amount);
    }

    /// The undeployed balance; `NotInitialized` before `initialize` runs.
    pub fn get_idle_funds(&self) -> (r: Result<i128, ContractError>)
        requires
            self.inv(),
        ensures
            match self.idle_funds {
                Some(b) => r == Ok::<i128, ContractError>(b) && b >= 0,
                None => r == Err::<i128, ContractError>(ContractError::NotInitialized),
            },
    {
        match self.idle_funds {
            Some(b) => Ok(b),
            None => Err(ContractError::NotInitialized),
        }
    }

    /// Grow the idle-funds ledger by `amount`, following `receive_outcome`
    /// exactly; on any failure the prior balance is preserved unchanged.
    pub fn receive_idle_funds(&mut self, amount: i128) -> (r: Result<(), ContractError>)
        requires
            old(self).inv(),
        ensures
            final(self).inv(),
            match old(self).idle_funds {
                None => r == Err::<(), ContractError>(ContractError::NotInitialized) && *final(self)
                    == *old(self),
                Some(b) => match receive_outcome(b as int, amount as int) {
                    Ok(nb) => r is Ok && (*final(self) == Vault {
                        idle_funds: Some(nb as i128),
                        ..*old(self)
                    }),
                    Err(e) => r == Err::<(), ContractError>(e) && *final(self) == *old(self),
                },
            },
    {
        let balance = match self.idle_funds {
            None => {
                return Err(ContractError::NotInitialized);
            },
            Some(b) => b,
        };
        if amount < 0 {
            return Err(ContractError::InvalidArgument);
        }
        if amount > i128::MAX - balance {
            return Err(ContractError::ArithmeticOverflow);
        }
        self.set_idle_funds(balance + amount);
        Ok(())
    }

    /// Shrink the idle-funds ledger by `amount`, following `spend_outcome`
    /// exactly; on any failure the prior balance is preserved unchanged.
    pub fn spend_idle_funds(&mut self, amount: i128) -> (r: Result<(), ContractError>)
        requires
            old(self).inv(),
        ensures
            final(self).inv(),
            match old(self).idle_funds {
                None => r == Err::<(), ContractError>(ContractError::NotInitialized) && *final(self)
                    == *old(self),
                Some(b) => match spend_outcome(b as int, amount as int) {
                    Ok(nb) => r is Ok && (*final(self) == Vault {
                        idle_funds: Some(nb as i128),
                        ..*old(self)
                    }),
                    Err(e) => r == Err::<(), ContractError>(e) && *final(self) == *old(self),
                },
            },
    {
        let balance = match self.idle_funds {
            None => {
                return Err(ContractError::NotInitialized);
            },
            Some(b) => b,
        };
        if amount < 0 {
            return Err(ContractError::InvalidArgument);
        }
        if amount > balance {
            return Err(ContractError::InsufficientBalance);
        }
        self.set_idle_funds(balance - amount);
        Ok(())
    }

    // Protocol fee receiver

    /// Reassign the protocol receiver; only the current holder may do so.
    pub fn set_defindex_receiver(&mut self, caller: Address, receiver: Address) -> (r: Result<
        (),
        ContractError,
    >)
        ensures
            match old(self).defindex_receiver {
                None => r == Err::<(), ContractError>(ContractError::NotInitialized) && *final(self)
                    == *old(self),
                Some(current) => {
                    if caller == current {
                        r is Ok && (*final(self) == Vault {
                            defindex_receiver: Some(receiver),
                            ..*old(self)
                        })
                    } else {
                        r == Err::<(), ContractError>(ContractError::Unauthorized) && *final(self)
                            == *old(self)
                    }
                },
            },
    {
        let current = match self.defindex_receiver {
            None => {
                return Err(ContractError::NotInitialized);
            },
            Some(c) => c,
        };
        if caller.id != current.id {
            return Err(ContractError::Unauthorized);
        }
        self.defindex_receiver = Some(receiver);
        Ok(())
    }

    /// The protocol receiver; `NotInitialized` before `initialize` runs.
    pub fn get_defindex_receiver(&self) -> (r: Result<Address, ContractError>)
        ensures
            match self.defindex_receiver {
                Some(a) => r == Ok::<Address, ContractError>(a),
                None => r == Err::<Address, ContractError>(ContractError::NotInitialized),
            },
    {
        match self.defindex_receiver {
            Some(a) => Ok(a),
            None => Err(ContractError::NotInitialized),
        }
    }
}

} // verus!
