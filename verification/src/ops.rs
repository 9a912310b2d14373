//! The vault's operation facade: the `Uninitialized -> Active` transition
//! and the deposit / withdraw / emergency-withdraw state machine.
//!
//! The vault itself never talks to the outside world.  The host shell that
//! runs it queries the external token and strategy collaborators, hands
//! their reported balances in as plain values, and performs the transfers
//! each operation's result calls for inside the same atomic transaction; if
//! a collaborator call fails, the shell discards the updated state, which
//! makes the whole operation abort without effect.

use vstd::prelude::*;
use vstd::arithmetic::div_mod::{
    lemma_div_basics_2, lemma_div_is_ordered, lemma_div_is_ordered_by_denominator,
    lemma_div_multiples_vanish, lemma_div_pos_is_pos, lemma_fundamental_div_mod, lemma_mod_bound,
};
use vstd::arithmetic::mul::{
    lemma_mul_inequality, lemma_mul_is_commutative, lemma_mul_is_distributive_add_other_way,
    lemma_mul_nonnegative,
};
use crate::errors::ContractError;
use crate::models::{Address, StrategyParams};
use crate::shares::ShareLedger;
use crate::storage::Vault;

verus! {

pub open spec fn int_min(a: int, b: int) -> int {
    if a < b {
        a
    } else {
        b
    }
}

pub open spec fn int_max(a: int, b: int) -> int {
    if a > b {
        a
    } else {
        b
    }
}

/// Shares minted for a deposit of `amount` against `total_shares`
/// outstanding claims on `managed` funds: the first deposit (or a deposit
/// into an empty pool) bootstraps one share per unit, afterwards shares are
/// issued pro rata, rounded down.
pub open spec fn deposit_shares(amount: int, total_shares: int, managed: int) -> int {
    if total_shares == 0 || managed == 0 {
        amount
    } else {
        amount * total_shares / managed
    }
}

/// The outcome `deposit` is specified against, as
/// `(new idle balance, shares minted)`.  Intermediate values, including the
/// pro-rata product, must stay representable.
pub open spec fn deposit_outcome(
    idle: int,
    total_shares: int,
    invested: int,
    amount: int,
) -> Result<(int, int), ContractError> {
    if amount <= 0 || invested < 0 {
        Err(ContractError::InvalidArgument)
    } else if idle + invested > i128::MAX {
        Err(ContractError::ArithmeticOverflow)
    } else if total_shares > 0 && idle + invested > 0 && amount * total_shares > i128::MAX {
        Err(ContractError::ArithmeticOverflow)
    } else {
        let minted = deposit_shares(amount, total_shares, idle + invested);
        if idle + amount > i128::MAX {
            Err(ContractError::ArithmeticOverflow)
        } else if total_shares + minted > i128::MAX {
            Err(ContractError::ArithmeticOverflow)
        } else {
            Ok((idle + amount, minted))
        }
    }
}

/// The outcome `emergency_withdraw` is specified against: the reported
/// strategy balance must cover the amount, and the idle ledger grows by it.
pub open spec fn emergency_outcome(
    idle: int,
    strategy_balance: int,
    amount: int,
) -> Result<int, ContractError> {
    if amount < 0 || strategy_balance < 0 {
        Err(ContractError::InvalidArgument)
    } else if amount > strategy_balance {
        Err(ContractError::InsufficientBalance)
    } else if idle + amount > i128::MAX {
        Err(ContractError::ArithmeticOverflow)
    } else {
        Ok(idle + amount)
    }
}

/// What a withdrawal asks the host shell to perform: `strategy_draws[j]` is
/// the amount to pull out of strategy `j`, and `payout` is the total owed to
/// the withdrawing depositor.
#[derive(Debug, PartialEq, Eq)]
pub struct WithdrawPlan {
    pub strategy_draws: Vec<i128>,
    pub payout: i128,
}

/// Sum of the first `j` reported balances.
pub open spec fn prefix_sum(s: Seq<i128>, j: int) -> int
    decreases j,
{
    if j <= 0 {
        0
    } else {
        prefix_sum(s, j - 1) + s[j - 1]
    }
}

pub open spec fn all_reported_nonneg(s: Seq<i128>) -> bool {
    forall|i: int| 0 <= i < s.len() ==> #[trigger] s[i] >= 0
}

/// The amount a withdrawal draws from strategy `j`: strategies are drained
/// in index order, each up to its reported balance, until the shortfall
/// `need` not covered by idle funds is met.
pub open spec fn greedy_draw(s: Seq<i128>, need: int, j: int) -> int {
    int_min(s[j] as int, int_max(need - prefix_sum(s, j), 0))
}

proof fn lemma_prefix_sum_mono(s: Seq<i128>, j1: int, j2: int)
    requires
        all_reported_nonneg(s),
        0 <= j1 <= j2 <= s.len(),
    ensures
        prefix_sum(s, j1) <= prefix_sum(s, j2),
    decreases j2 - j1,
{
    if j1 < j2 {
        lemma_prefix_sum_mono(s, j1, j2 - 1);
        assert(s[j2 - 1] >= 0);
    }
}

proof fn lemma_prefix_sum_agree(s1: Seq<i128>, s2: Seq<i128>, j: int)
    requires
        0 <= j <= s1.len(),
        j <= s2.len(),
        forall|k: int| 0 <= k < j ==> s1[k] == s2[k],
    ensures
        prefix_sum(s1, j) == prefix_sum(s2, j),
    decreases j,
{
    if j > 0 {
        lemma_prefix_sum_agree(s1, s2, j - 1);
    }
}

/// Validate the balances the strategy collaborators reported and sum them:
/// every entry must be non-negative and the sum representable.
fn sum_reported(balances: &Vec<i128>) -> (r: Result<i128, ContractError>)
    ensures
        match r {
            Ok(s) => {
                &&& all_reported_nonneg(balances@)
                &&& s == prefix_sum(balances@, balances@.len() as int)
                &&& s >= 0
            },
            Err(e) => {
                if !all_reported_nonneg(balances@) {
                    e == ContractError::InvalidArgument
                } else {
                    e == ContractError::ArithmeticOverflow && prefix_sum(
                        balances@,
                        balances@.len() as int,
                    ) > i128::MAX
                }
            },
        },
{
    let n = balances.len();
    let mut j: usize = 0;
    while j < n
        invariant
            n == balances@.len(),
            j <= n,
            forall|k: int| 0 <= k < j ==> #[trigger] balances@[k] >= 0,
        decreases n - j,
    {
        if balances[j] < 0 {
            return Err(ContractError::InvalidArgument);
        }
        j = j + 1;
    }
    let mut acc: i128 = 0;
    let mut i: usize = 0;
    while i < n
        invariant
            n == balances@.len(),
            i <= n,
            all_reported_nonneg(balances@),
            acc == prefix_sum(balances@, i as int),
            acc >= 0,
        decreases n - i,
    {
        let b = balances[i];
        if b > i128::MAX - acc {
            proof {
                lemma_prefix_sum_mono(balances@, i + 1, n as int);
            }
            return Err(ContractError::ArithmeticOverflow);
        }
        acc = acc + b;
        i = i + 1;
    }
    Ok(acc)
}

/// For `a >= 0`, `b > 0`, `max >= 0`: comparing against the rounded-down
/// quotient decides exactly whether the product stays within `max`.
proof fn lemma_mul_div_bound(a: int, b: int, max: int)
    requires
        a >= 0,
        b > 0,
        max >= 0,
    ensures
        (a <= max / b) <==> (a * b <= max),
{
    lemma_fundamental_div_mod(max, b);
    lemma_mod_bound(max, b);
    lemma_mul_is_commutative(max / b, b);
    if a <= max / b {
        lemma_mul_inequality(a, max / b, b);
    }
    if a * b <= max {
        if a > max / b {
            lemma_mul_inequality(max / b + 1, a, b);
            lemma_mul_is_distributive_add_other_way(b, max / b, 1);
            assert(1 * b == b) by (nonlinear_arith);
            assert(false);
        }
    }
}

impl Vault {
    /// The share balance `from` holds.
    pub fn balance(&self, from: Address) -> (r: i128)
        requires
            self.inv(),
        ensures
            r == self.shares.spec_balance(from),
            0 <= r,
    {
        self.shares.balance_of(from)
    }

    /// The outstanding share supply.
    pub fn total_shares(&self) -> (r: i128)
        ensures
            r == self.shares.spec_total(),
    {
        self.shares.total()
    }

    /// Populate the vault from the caller-supplied parallel sequences and
    /// activate it.  Runs at most once: a second call fails with
    /// `AlreadyInitialized` and leaves every piece of configuration from the
    /// first call intact.
    pub fn initialize(
        &mut self,
        emergency_manager: Address,
        fee_receiver: Address,
        manager: Address,
        defindex_receiver: Address,
        tokens: &Vec<Address>,
        ratios: &Vec<u32>,
        strategies: &Vec<StrategyParams>,
    ) -> (r: Result<(), ContractError>)
        requires
            old(self).inv(),
        ensures
            final(self).inv(),
            old(self).initialized ==> r == Err::<(), ContractError>(
                ContractError::AlreadyInitialized,
            ) && *final(self) == *old(self),
            !old(self).initialized && (tokens@.len() != ratios@.len() || tokens@.len() > u32::MAX
                || strategies@.len() > u32::MAX) ==> r == Err::<(), ContractError>(
                ContractError::InvalidArgument,
            ) && *final(self) == *old(self),
            !old(self).initialized && tokens@.len() == ratios@.len() && tokens@.len() <= u32::MAX
                && strategies@.len() <= u32::MAX ==> {
                &&& r is Ok
                &&& final(self).initialized
                &&& final(self).total_tokens == Some(tokens@.len() as u32)
                &&& final(self).total_strategies == Some(strategies@.len() as u32)
                &&& forall|i: int|
                    0 <= i < tokens@.len() ==> #[trigger] final(self).tokens@.contains_key(i as u32)
                &&& forall|i: int|
                    0 <= i < tokens@.len() ==> #[trigger] final(self).tokens@[i as u32] == tokens@[i]
                &&& forall|i: int|
                    0 <= i < ratios@.len() ==> #[trigger] final(self).ratios@.contains_key(i as u32)
                &&& forall|i: int|
                    0 <= i < ratios@.len() ==> #[trigger] final(self).ratios@[i as u32] == ratios@[i]
                &&& forall|i: int|
                    0 <= i < strategies@.len() ==> #[trigger] final(self).strategies@.contains_key(
                        i as u32,
                    )
                &&& forall|i: int|
                    0 <= i < strategies@.len() ==> #[trigger] final(self).strategies@[i as u32]
                        == strategies@[i]
                &&& final(self).idle_funds == Some(0i128)
                &&& final(self).shares.spec_total() == 0
                &&& forall|a: Address| final(self).shares.spec_balance(a) == 0
                &&& final(self).manager == Some(manager)
                &&& final(self).emergency_manager == Some(emergency_manager)
                &&& final(self).fee_receiver == Some(fee_receiver)
                &&& final(self).defindex_receiver == Some(defindex_receiver)
            },
    {
        if self.initialized {
            return Err(ContractError::AlreadyInitialized);
        }
        if tokens.len() != ratios.len() {
            return Err(ContractError::InvalidArgument);
        }
        if tokens.len() > u32::MAX as usize || strategies.len() > u32::MAX as usize {
            return Err(ContractError::InvalidArgument);
        }
        let n = tokens.len();
        let mut i: usize = 0;
        while i < n
            invariant
                n == tokens@.len(),
                n == ratios@.len(),
                n <= u32::MAX,
                i <= n,
                forall|j: int| 0 <= j < i ==> #[trigger] self.tokens@.contains_key(j as u32),
                forall|j: int| 0 <= j < i ==> #[trigger] self.tokens@[j as u32] == tokens@[j],
                forall|j: int| 0 <= j < i ==> #[trigger] self.ratios@.contains_key(j as u32),
                forall|j: int| 0 <= j < i ==> #[trigger] self.ratios@[j as u32] == ratios@[j],
                (*self == Vault { tokens: self.tokens, ratios: self.ratios, ..*old(self) }),
            decreases n - i,
        {
            self.set_token(i as u32, tokens[i]);
            self.set_ratio(i as u32, ratios[i]);
            proof {
                assert forall|j: int|
                    0 <= j < i + 1 implies #[trigger] self.tokens@.contains_key(j as u32)
                    && self.tokens@[j as u32] == tokens@[j] by {
                    if j == i {
                        assert(j as u32 == i as u32);
                    } else {
                        assert(j as u32 != i as u32);
                    }
                }
                assert forall|j: int|
                    0 <= j < i + 1 implies #[trigger] self.ratios@.contains_key(j as u32)
                    && self.ratios@[j as u32] == ratios@[j] by {
                    if j == i {
                        assert(j as u32 == i as u32);
                    } else {
                        assert(j as u32 != i as u32);
                    }
                }
            }
            i = i + 1;
        }
        let m = strategies.len();
        let mut j: usize = 0;
        while j < m
            invariant
                m == strategies@.len(),
                m <= u32::MAX,
                j <= m,
                forall|k: int| 0 <= k < j ==> #[trigger] self.strategies@.contains_key(k as u32),
                forall|k: int| 0 <= k < j ==> #[trigger] self.strategies@[k as u32] == strategies@[k],
                forall|k: int| 0 <= k < tokens@.len() ==> #[trigger] self.tokens@.contains_key(
                    k as u32,
                ),
                forall|k: int| 0 <= k < tokens@.len() ==> #[trigger] self.tokens@[k as u32]
                    == tokens@[k],
                forall|k: int| 0 <= k < ratios@.len() ==> #[trigger] self.ratios@.contains_key(
                    k as u32,
                ),
                forall|k: int| 0 <= k < ratios@.len() ==> #[trigger] self.ratios@[k as u32]
                    == ratios@[k],
                (*self == Vault {
                    tokens: self.tokens,
                    ratios: self.ratios,
                    strategies: self.strategies,
                    ..*old(self)
                }),
            decreases m - j,
        {
            self.set_strategy(j as u32, strategies[j].clone());
            proof {
                assert forall|k: int|
                    0 <= k < j + 1 implies #[trigger] self.strategies@.contains_key(k as u32)
                    && self.strategies@[k as u32] == strategies@[k] by {
                    if k == j {
                        assert(k as u32 == j as u32);
                    } else {
                        assert(k as u32 != j as u32);
                    }
                }
            }
            j = j + 1;
        }
        self.set_total_tokens(n as u32);
        self.set_total_strategies(m as u32);
        self.idle_funds = Some(0);
        self.shares = ShareLedger::new();
        self.manager = Some(manager);
        self.emergency_manager = Some(emergency_manager);
        self.fee_receiver = Some(fee_receiver);
        self.defindex_receiver = Some(defindex_receiver);
        self.initialized = true;
        Ok(())
    }

    /// Book a deposit of `amount` brought in by `from`.
    ///
    /// The host shell must, in the same transaction, pull `amount` of the
    /// deposit token from `from`; `total_invested` is the sum of the balances
    /// the strategy collaborators report, which fixes the managed funds the
    /// pro-rata share issue is computed against.  Returns the shares minted
    /// to `from`, per `deposit_outcome`.
    pub fn deposit(&mut self, amount: i128, from: Address, total_invested: i128) -> (r: Result<
        i128,
        ContractError,
    >)
        requires
            old(self).inv(),
        ensures
            final(self).inv(),
            !old(self).initialized ==> r == Err::<i128, ContractError>(
                ContractError::NotInitialized,
            ) && *final(self) == *old(self),
            old(self).initialized ==> (old(self).idle_funds matches Some(idle) && {
                match deposit_outcome(
                    idle as int,
                    old(self).shares.spec_total() as int,
                    total_invested as int,
                    amount as int,
                ) {
                    Ok(pair) => {
                        &&& r == Ok::<i128, ContractError>(pair.1 as i128)
                        &&& final(self).idle_funds == Some(pair.0 as i128)
                        &&& final(self).shares.spec_total() == old(self).shares.spec_total()
                            + pair.1
                        &&& final(self).shares.spec_balance(from) == old(self).shares.spec_balance(
                            from,
                        ) + pair.1
                        &&& forall|b: Address|
                            b != from ==> final(self).shares.spec_balance(b) == old(
                                self,
                            ).shares.spec_balance(b)
                        &&& (*final(self) == Vault {
                            idle_funds: final(self).idle_funds,
                            shares: final(self).shares,
                            ..*old(self)
                        })
                    },
                    Err(e) => r == Err::<i128, ContractError>(e) && *final(self) == *old(self),
                }
            }),
    {
        if !self.initialized {
            return Err(ContractError::NotInitialized);
        }
        let idle = match self.idle_funds {
            Some(b) => b,
            None => {
                return Err(ContractError::NotInitialized);
            },
        };
        if amount <= 0 || total_invested < 0 {
            return Err(ContractError::InvalidArgument);
        }
        if total_invested > i128::MAX - idle {
            return Err(ContractError::ArithmeticOverflow);
        }
        let managed = idle + total_invested;
        let ts = self.shares.total();
        let minted: i128;
        if ts == 0 || managed == 0 {
            minted = amount;
        } else {
            if amount > i128::MAX / ts {
                proof {
                    lemma_mul_div_bound(amount as int, ts as int, i128::MAX as int);
                }
                return Err(ContractError::ArithmeticOverflow);
            }
            proof {
                lemma_mul_div_bound(amount as int, ts as int, i128::MAX as int);
                lemma_mul_nonnegative(amount as int, ts as int);
            }
            let product = amount * ts;
            proof {
                lemma_div_pos_is_pos(product as int, managed as int);
                lemma_div_is_ordered_by_denominator(product as int, 1, managed as int);
                lemma_div_basics_2(product as int);
            }
            minted = product / managed;
        }
        if amount > i128::MAX - idle {
            return Err(ContractError::ArithmeticOverflow);
        }
        if minted > i128::MAX - ts {
            return Err(ContractError::ArithmeticOverflow);
        }
        self.idle_funds = Some(idle + amount);
        let credited = self.shares.credit(from, minted);
        proof {
            assert(credited is Ok);
        }
        Ok(minted)
    }

    /// Redeem `df_amount` shares held by `from`.
    ///
    /// `strategy_balances[j]` is the balance strategy `j` reports; together
    /// with the idle ledger they fix the managed funds the proportional
    /// payout `df_amount * managed / total_shares` (rounded down) is
    /// computed from.  The payout is drawn from idle funds first; the
    /// remaining shortfall is assigned to strategies in index order, each up
    /// to its reported balance.  The host shell must perform the returned
    /// plan in the same transaction: pull `strategy_draws[j]` from each
    /// strategy `j` and transfer `payout` to `from`.
    pub fn withdraw(&mut self, df_amount: i128, from: Address, strategy_balances: &Vec<i128>) -> (r:
        Result<WithdrawPlan, ContractError>)
        requires
            old(self).inv(),
        ensures
            final(self).inv(),
            !old(self).initialized ==> (r matches Err(e) && e == ContractError::NotInitialized
                && *final(self) == *old(self)),
            old(self).initialized ==> (old(self).idle_funds matches Some(idle) && old(
                self,
            ).total_strategies matches Some(m) && {
                let ts = old(self).shares.spec_total();
                let user = old(self).shares.spec_balance(from);
                let invested = prefix_sum(strategy_balances@, strategy_balances@.len() as int);
                if df_amount <= 0 {
                    (r matches Err(e) && e == ContractError::InvalidArgument && *final(self)
                        == *old(self))
                } else if strategy_balances@.len() != m {
                    (r matches Err(e) && e == ContractError::InvalidArgument && *final(self)
                        == *old(self))
                } else if !all_reported_nonneg(strategy_balances@) {
                    (r matches Err(e) && e == ContractError::InvalidArgument && *final(self)
                        == *old(self))
                } else if invested > i128::MAX {
                    (r matches Err(e) && e == ContractError::ArithmeticOverflow && *final(self)
                        == *old(self))
                } else if df_amount > user {
                    (r matches Err(e) && e == ContractError::InsufficientBalance && *final(self)
                        == *old(self))
                } else if idle + invested > i128::MAX {
                    (r matches Err(e) && e == ContractError::ArithmeticOverflow && *final(self)
                        == *old(self))
                } else if df_amount * (idle + invested) > i128::MAX {
                    (r matches Err(e) && e == ContractError::ArithmeticOverflow && *final(self)
                        == *old(self))
                } else {
                    let managed = idle + invested;
                    let owed = (df_amount as int) * managed / (ts as int);
                    let idle_draw = int_min(owed, idle as int);
                    let need = owed - idle_draw;
                    &&& (r matches Ok(plan) && {
                        &&& plan.payout == owed
                        &&& plan.strategy_draws@.len() == strategy_balances@.len()
                        &&& forall|j: int|
                            0 <= j < strategy_balances@.len() ==> #[trigger] plan.strategy_draws@[j]
                                == greedy_draw(strategy_balances@, need, j)
                        &&& prefix_sum(
                            plan.strategy_draws@,
                            plan.strategy_draws@.len() as int,
                        ) == need
                    })
                    &&& final(self).idle_funds == Some((idle - idle_draw) as i128)
                    &&& final(self).shares.spec_total() == ts - df_amount
                    &&& final(self).shares.spec_balance(from) == user - df_amount
                    &&& forall|b: Address|
                        b != from ==> final(self).shares.spec_balance(b) == old(
                            self,
                        ).shares.spec_balance(b)
                    &&& (*final(self) == Vault {
                        idle_funds: final(self).idle_funds,
                        shares: final(self).shares,
                        ..*old(self)
                    })
                }
            }),
    {
        if !self.initialized {
            return Err(ContractError::NotInitialized);
        }
        let idle = match self.idle_funds {
            Some(b) => b,
            None => {
                return Err(ContractError::NotInitialized);
            },
        };
        let m = match self.total_strategies {
            Some(m) => m,
            None => {
                return Err(ContractError::NotInitialized);
            },
        };
        if df_amount <= 0 {
            return Err(ContractError::InvalidArgument);
        }
        if strategy_balances.len() != m as usize {
            return Err(ContractError::InvalidArgument);
        }
        let invested = match sum_reported(strategy_balances) {
            Ok(s) => s,
            Err(e) => {
                return Err(e);
            },
        };
        let user = self.shares.balance_of(from);
        if df_amount > user {
            return Err(ContractError::InsufficientBalance);
        }
        proof {
            self.shares.lemma_balance_le_total(from);
        }
        let ts = self.shares.total();
        if invested > i128::MAX - idle {
            return Err(ContractError::ArithmeticOverflow);
        }
        let managed = idle + invested;
        if managed > 0 && df_amount > i128::MAX / managed {
            proof {
                lemma_mul_div_bound(df_amount as int, managed as int, i128::MAX as int);
            }
            return Err(ContractError::ArithmeticOverflow);
        }
        proof {
            if managed > 0 {
                lemma_mul_div_bound(df_amount as int, managed as int, i128::MAX as int);
            }
            lemma_mul_nonnegative(df_amount as int, managed as int);
        }
        let product = df_amount * managed;
        proof {
            lemma_div_pos_is_pos(product as int, ts as int);
            lemma_mul_inequality(df_amount as int, ts as int, managed as int);
            lemma_mul_is_commutative(ts as int, managed as int);
            lemma_div_is_ordered(product as int, (ts as int) * (managed as int), ts as int);
            lemma_div_multiples_vanish(managed as int, ts as int);
        }
        let owed = product / ts;
        let idle_draw = if owed < idle {
            owed
        } else {
            idle
        };
        let need = owed - idle_draw;
        let ghost gneed = need as int;
        let mut draws: Vec<i128> = Vec::new();
        let mut remaining: i128 = need;
        let n = strategy_balances.len();
        let mut j: usize = 0;
        while j < n
            invariant
                n == strategy_balances@.len(),
                j <= n,
                all_reported_nonneg(strategy_balances@),
                draws@.len() == j,
                gneed >= 0,
                gneed <= prefix_sum(strategy_balances@, n as int),
                prefix_sum(strategy_balances@, n as int) <= i128::MAX,
                0 <= remaining <= gneed,
                remaining == int_max(gneed - prefix_sum(strategy_balances@, j as int), 0),
                forall|k: int|
                    0 <= k < j ==> #[trigger] draws@[k] == greedy_draw(
                        strategy_balances@,
                        gneed,
                        k,
                    ),
                prefix_sum(draws@, j as int) == gneed - remaining,
            decreases n - j,
        {
            let b = strategy_balances[j];
            let draw = if b < remaining {
                b
            } else {
                remaining
            };
            let ghost prevd = draws@;
            draws.push(draw);
            proof {
                assert(prefix_sum(strategy_balances@, j + 1) == prefix_sum(
                    strategy_balances@,
                    j as int,
                ) + strategy_balances@[j as int]);
                lemma_prefix_sum_mono(strategy_balances@, j + 1, n as int);
                assert(draws@[j as int] == draw);
                assert forall|k: int|
                    0 <= k < j + 1 implies #[trigger] draws@[k] == greedy_draw(
                    strategy_balances@,
                    gneed,
                    k,
                ) by {
                    if k < j {
                        assert(draws@[k] == prevd[k]);
                    }
                }
                assert(forall|k: int| 0 <= k < j ==> #[trigger] draws@[k] == prevd[k]);
                lemma_prefix_sum_agree(draws@, prevd, j as int);
                assert(prefix_sum(draws@, j + 1) == prefix_sum(draws@, j as int) + draws@[j as int]);
            }
            remaining = remaining - draw;
            j = j + 1;
        }
        self.idle_funds = Some(idle - idle_draw);
        let debited = self.shares.debit(from, df_amount);
        proof {
            assert(debited is Ok);
        }
        Ok(WithdrawPlan { strategy_draws: draws, payout: owed })
    }

    /// Build the token-to-amount report: the whole reported amount under
    /// the primary token (index zero), zero under every other token.  The
    /// single scalar ledger is denominated in the vault's primary asset.
    fn funds_report(&self, amount0: i128) -> (r: Result<Vec<(Address, i128)>, ContractError>)
        ensures
            match r {
                Ok(v) => {
                    &&& self.total_tokens matches Some(n)
                    &&& v@.len() == n
                    &&& forall|i: int|
                        0 <= i < v@.len() ==> #[trigger] self.tokens@.contains_key(i as u32)
                    &&& forall|i: int|
                        0 <= i < v@.len() ==> (#[trigger] v@[i]).0 == self.tokens@[i as u32]
                    &&& forall|i: int|
                        0 <= i < v@.len() ==> (#[trigger] v@[i]).1 == if i == 0 {
                            amount0
                        } else {
                            0i128
                        }
                },
                Err(e) => match self.total_tokens {
                    None => e == ContractError::NotInitialized,
                    Some(n) => e == ContractError::NotFound && exists|i: u32|
                        i < n && !(#[trigger] self.tokens@.contains_key(i)),
                },
            },
    {
        let toks = match self.get_tokens() {
            Ok(v) => v,
            Err(e) => {
                return Err(e);
            },
        };
        let mut out: Vec<(Address, i128)> = Vec::new();
        let n = toks.len();
        let mut i: usize = 0;
        while i < n
            invariant
                n == toks@.len(),
                i <= n,
                forall|k: int| 0 <= k < n ==> #[trigger] self.tokens@.contains_key(k as u32),
                forall|k: int| 0 <= k < n ==> #[trigger] toks@[k] == self.tokens@[k as u32],
                out@.len() == i,
                forall|k: int| 0 <= k < i ==> (#[trigger] out@[k]).0 == toks@[k],
                forall|k: int|
                    0 <= k < i ==> (#[trigger] out@[k]).1 == if k == 0 {
                        amount0
                    } else {
                        0i128
                    },
            decreases n - i,
        {
            let amount: i128 = if i == 0 {
                amount0
            } else {
                0
            };
            let ghost prev = out@;
            out.push((toks[i], amount));
            proof {
                assert forall|k: int| 0 <= k < i + 1 implies (#[trigger] out@[k]).0 == toks@[k]
                    && out@[k].1 == (if k == 0 {
                    amount0
                } else {
                    0i128
                }) by {
                    if k < i {
                        assert(out@[k] == prev[k]);
                    } else {
                        assert(out@[k] == (toks@[i as int], amount));
                    }
                }
            }
            i = i + 1;
        }
        Ok(out)
    }

    /// Mapping from each supported token to the undeployed funds it backs,
    /// per `funds_report`.
    pub fn get_current_idle_funds(&self) -> (r: Result<Vec<(Address, i128)>, ContractError>)
        requires
            self.inv(),
        ensures
            !self.initialized ==> (r matches Err(e) && e == ContractError::NotInitialized),
            self.initialized ==> (self.idle_funds matches Some(idle) && self.total_tokens matches
                Some(n) && match r {
                Ok(v) => {
                    &&& v@.len() == n
                    &&& forall|i: int|
                        0 <= i < v@.len() ==> #[trigger] self.tokens@.contains_key(i as u32)
                    &&& forall|i: int|
                        0 <= i < v@.len() ==> (#[trigger] v@[i]).0 == self.tokens@[i as u32]
                    &&& forall|i: int|
                        0 <= i < v@.len() ==> (#[trigger] v@[i]).1 == if i == 0 {
                            idle
                        } else {
                            0i128
                        }
                },
                Err(e) => e == ContractError::NotFound && exists|i: u32|
                    i < n && !(#[trigger] self.tokens@.contains_key(i)),
            }),
    {
        if !self.initialized {
            return Err(ContractError::NotInitialized);
        }
        let idle = match self.idle_funds {
            Some(b) => b,
            None => {
                return Err(ContractError::NotInitialized);
            },
        };
        self.funds_report(idle)
    }

    /// Mapping from each supported token to the funds deployed in
    /// strategies, aggregated from the balances the strategy collaborators
    /// report, per `funds_report`.
    pub fn get_current_invested_funds(&self, strategy_balances: &Vec<i128>) -> (r: Result<
        Vec<(Address, i128)>,
        ContractError,
    >)
        requires
            self.inv(),
        ensures
            !self.initialized ==> (r matches Err(e) && e == ContractError::NotInitialized),
            self.initialized ==> (self.total_strategies matches Some(m) && self.total_tokens
                matches Some(n) && {
                let invested = prefix_sum(strategy_balances@, strategy_balances@.len() as int);
                if strategy_balances@.len() != m {
                    (r matches Err(e) && e == ContractError::InvalidArgument)
                } else if !all_reported_nonneg(strategy_balances@) {
                    (r matches Err(e) && e == ContractError::InvalidArgument)
                } else if invested > i128::MAX {
                    (r matches Err(e) && e == ContractError::ArithmeticOverflow)
                } else {
                    match r {
                        Ok(v) => {
                            &&& v@.len() == n
                            &&& forall|i: int|
                                0 <= i < v@.len() ==> #[trigger] self.tokens@.contains_key(i as u32)
                            &&& forall|i: int|
                                0 <= i < v@.len() ==> (#[trigger] v@[i]).0 == self.tokens@[i as u32]
                            &&& forall|i: int|
                                0 <= i < v@.len() ==> (#[trigger] v@[i]).1 == if i == 0 {
                                    invested as i128
                                } else {
                                    0i128
                                }
                        },
                        Err(e) => e == ContractError::NotFound && exists|i: u32|
                            i < n && !(#[trigger] self.tokens@.contains_key(i)),
                    }
                }
            }),
    {
        if !self.initialized {
            return Err(ContractError::NotInitialized);
        }
        let m = match self.total_strategies {
            Some(m) => m,
            None => {
                return Err(ContractError::NotInitialized);
            },
        };
        if strategy_balances.len() != m as usize {
            return Err(ContractError::InvalidArgument);
        }
        let invested = match sum_reported(strategy_balances) {
            Ok(s) => s,
            Err(e) => {
                return Err(e);
            },
        };
        self.funds_report(invested)
    }

    /// Mapping from each supported token to the total funds it backs: the
    /// idle ledger plus every strategy-reported balance, per `funds_report`.
    pub fn get_total_managed_funds(&self, strategy_balances: &Vec<i128>) -> (r: Result<
        Vec<(Address, i128)>,
        ContractError,
    >)
        requires
            self.inv(),
        ensures
            !self.initialized ==> (r matches Err(e) && e == ContractError::NotInitialized),
            self.initialized ==> (self.idle_funds matches Some(idle) && self.total_strategies
                matches Some(m) && self.total_tokens matches Some(n) && {
                let invested = prefix_sum(strategy_balances@, strategy_balances@.len() as int);
                if strategy_balances@.len() != m {
                    (r matches Err(e) && e == ContractError::InvalidArgument)
                } else if !all_reported_nonneg(strategy_balances@) {
                    (r matches Err(e) && e == ContractError::InvalidArgument)
                } else if invested > i128::MAX {
                    (r matches Err(e) && e == ContractError::ArithmeticOverflow)
                } else if idle + invested > i128::MAX {
                    (r matches Err(e) && e == ContractError::ArithmeticOverflow)
                } else {
                    match r {
                        Ok(v) => {
                            &&& v@.len() == n
                            &&& forall|i: int|
                                0 <= i < v@.len() ==> #[trigger] self.tokens@.contains_key(i as u32)
                            &&& forall|i: int|
                                0 <= i < v@.len() ==> (#[trigger] v@[i]).0 == self.tokens@[i as u32]
                            &&& forall|i: int|
                                0 <= i < v@.len() ==> (#[trigger] v@[i]).1 == if i == 0 {
                                    (idle + invested) as i128
                                } else {
                                    0i128
                                }
                        },
                        Err(e) => e == ContractError::NotFound && exists|i: u32|
                            i < n && !(#[trigger] self.tokens@.contains_key(i)),
                    }
                }
            }),
    {
        if !self.initialized {
            return Err(ContractError::NotInitialized);
        }
        let idle = match self.idle_funds {
            Some(b) => b,
            None => {
                return Err(ContractError::NotInitialized);
            },
        };
        let m = match self.total_strategies {
            Some(m) => m,
            None => {
                return Err(ContractError::NotInitialized);
            },
        };
        if strategy_balances.len() != m as usize {
            return Err(ContractError::InvalidArgument);
        }
        let invested = match sum_reported(strategy_balances) {
            Ok(s) => s,
            Err(e) => {
                return Err(e);
            },
        };
        if invested > i128::MAX - idle {
            return Err(ContractError::ArithmeticOverflow);
        }
        self.funds_report(idle + invested)
    }

    /// Pull `amount` out of the strategy at `strategy_index` back into the
    /// idle ledger, bypassing share bookkeeping.  Restricted to the
    /// emergency manager; the authorization check precedes every mutation.
    ///
    /// `strategy_balance` is the balance the targeted strategy collaborator
    /// reports; the host shell must, on success, withdraw `amount` from that
    /// strategy in the same transaction.
    pub fn emergency_withdraw(
        &mut self,
        amount: i128,
        from: Address,
        strategy_index: u32,
        strategy_balance: i128,
    ) -> (r: Result<(), ContractError>)
        requires
            old(self).inv(),
        ensures
            final(self).inv(),
            !old(self).initialized ==> r == Err::<(), ContractError>(ContractError::NotInitialized)
                && *final(self) == *old(self),
            old(self).initialized && old(self).emergency_manager != Some(from) ==> r == Err::<
                (),
                ContractError,
            >(ContractError::Unauthorized) && *final(self) == *old(self),
            old(self).initialized && old(self).emergency_manager == Some(from) && !old(
                self,
            ).strategies@.contains_key(strategy_index) ==> r == Err::<(), ContractError>(
                ContractError::NotFound,
            ) && *final(self) == *old(self),
            old(self).initialized && old(self).emergency_manager == Some(from) && old(
                self,
            ).strategies@.contains_key(strategy_index) ==> (old(self).idle_funds matches Some(idle)
                && {
                match emergency_outcome(idle as int, strategy_balance as int, amount as int) {
                    Ok(nb) => r is Ok && (*final(self) == Vault {
                        idle_funds: Some(nb as i128),
                        ..*old(self)
                    }),
                    Err(e) => r == Err::<(), ContractError>(e) && *final(self) == *old(self),
                }
            }),
    {
        if !self.initialized {
            return Err(ContractError::NotInitialized);
        }
        let authorized = match self.emergency_manager {
            Some(em) => em.id == from.id,
            None => false,
        };
        if !authorized {
            return Err(ContractError::Unauthorized);
        }
        if self.get_strategy(strategy_index).is_err() {
            return Err(ContractError::NotFound);
        }
        let idle = match self.idle_funds {
            Some(b) => b,
            None => {
                return Err(ContractError::NotInitialized);
            },
        };
        if amount < 0 || strategy_balance < 0 {
            return Err(ContractError::InvalidArgument);
        }
        if amount > strategy_balance {
            return Err(ContractError::InsufficientBalance);
        }
        if amount > i128::MAX - idle {
            return Err(ContractError::ArithmeticOverflow);
        }
        self.idle_funds = Some(idle + amount);
        Ok(())
    }
}

} // verus!
