//! A vault that takes one deposit token into up to `MAX_POOLS` registered
//! AMM pools: deposits go to the pool with the highest estimated APR, and
//! rebalancing spreads the funds over the pools by strategy weight, with a
//! slippage check.
//!
//! Each pool is another contract, so every function that needs something a
//! pool answers (its fee, its reserve, what a pool deposit or withdrawal gave
//! back) takes those answers as arguments, one per registered pool, in pool
//! order; the functions ending in `_plan` say what to ask the pools for.

use vstd::prelude::*;
use crate::ledger::{Account, Entry, Transfer, amount_in, sum_amounts, unique_accounts, balance_of, set_balance};
use crate::hybrid_amm::{tdiv, div_ok, fits, checked_div};

verus! {

#[derive(Copy, Clone, Debug, PartialEq, Eq, Structural)]
pub enum Error {
    AlreadyInitialized,
    NotInitialized,
    InvalidAmount,
    TooManyPools,
    PoolAlreadyRegistered,
    PoolNotFound,
    SlippageExceeded,
    InsufficientShares,
    Unauthorized,
    InvalidWeights,
    /// The contract traps here (an arithmetic overflow or a division by
    /// zero); the host aborts the call.
    Overflow,
}

impl Error {
    /// The contract error code (0 for a trap, which has none).
    pub fn code(&self) -> (r: u32)
        ensures
            r == match self {
                Error::AlreadyInitialized => 1u32,
                Error::NotInitialized => 2,
                Error::InvalidAmount => 3,
                Error::TooManyPools => 4,
                Error::PoolAlreadyRegistered => 5,
                Error::PoolNotFound => 6,
                Error::SlippageExceeded => 7,
                Error::InsufficientShares => 8,
                Error::Unauthorized => 9,
                Error::InvalidWeights => 10,
                Error::Overflow => 0,
            },
    {
        match self {
            Error::AlreadyInitialized => 1,
            Error::NotInitialized => 2,
            Error::InvalidAmount => 3,
            Error::TooManyPools => 4,
            Error::PoolAlreadyRegistered => 5,
            Error::PoolNotFound => 6,
            Error::SlippageExceeded => 7,
            Error::InsufficientShares => 8,
            Error::Unauthorized => 9,
            Error::InvalidWeights => 10,
            Error::Overflow => 0,
        }
    }
}

/// Vault-wide configuration and accounting.
#[derive(Copy, Clone, Debug, PartialEq, Eq, Structural)]
pub struct VaultState {
    /// The single token users deposit.
    pub deposit_token: Account,
    pub admin: Account,
    /// Total vault shares outstanding.
    pub total_shares: i128,
    /// Maximum slippage tolerated on rebalance withdrawals, in bps.
    pub slippage_bps: i128,
    /// Assumed daily volume as a fraction of pool reserve, in bps.
    pub volume_proxy_bps: i128,
}

/// Per-pool allocation record.
#[derive(Copy, Clone, Debug, PartialEq, Eq, Structural)]
pub struct PoolAllocation {
    /// The AMM pool contract.
    pub pool: Account,
    /// LP shares the vault holds in this pool.
    pub lp_shares: i128,
    /// Whether the deposit token is the pool's token_a.
    pub deposit_is_a: bool,
    /// Target weight in basis points.
    pub weight: u32,
}

pub const MAX_POOLS: u32 = 8;
pub const TTL_LEDGERS: u32 = 17_280;
pub const DEFAULT_SLIPPAGE_BPS: i128 = 100;
pub const DEFAULT_VOLUME_PROXY_BPS: i128 = 10_000;
/// The largest weight one pool may be given (50%).
pub const MAX_WEIGHT_BPS: u32 = 5_000;
/// Weights must add up to this (100%).
pub const TOTAL_WEIGHT_BPS: u32 = 10_000;

/// The contract's stored state.
pub struct MultiYieldVault {
    pub vault: Option<VaultState>,
    /// Registered pools, in registration order.
    pub pools: Vec<PoolAllocation>,
    /// Per-user vault share balances.
    pub balances: Vec<Entry>,
}

/// Sum of the weights of the first `k` pools.
pub open spec fn weight_sum(pools: Seq<PoolAllocation>, k: int) -> int
    decreases k,
{
    if k <= 0 { 0 } else { weight_sum(pools, k - 1) + pools[k - 1].weight }
}

/// The index of the last pool with a nonzero weight, if any.
pub open spec fn last_weighted(pools: Seq<PoolAllocation>) -> Option<int> {
    if exists|i: int| 0 <= i < pools.len() && pools[i].weight > 0 {
        Some(choose|i: int| 0 <= i < pools.len() && pools[i].weight > 0
            && forall|j: int| i < j < pools.len() ==> pools[j].weight == 0)
    } else {
        None
    }
}

/// Every weighted pool reports a positive fee.
pub open spec fn fees_ok(pools: Seq<PoolAllocation>, fees: Seq<i128>) -> bool {
    forall|i: int| 0 <= i < pools.len() && pools[i].weight != 0 ==> fees[i] > 0
}

/// The strategy check that deposits and rebalances make: the weights add
/// up to 100% and every weighted pool reports a positive fee. `Ok` holds the
/// index of the last weighted pool, which takes the rounding remainder.
pub open spec fn weights_check(pools: Seq<PoolAllocation>, fees: Seq<i128>) -> Result<int, Error> {
    if weight_sum(pools, pools.len() as int) != TOTAL_WEIGHT_BPS {
        Err(Error::InvalidWeights)
    } else {
        match last_weighted(pools) {
            None => Err(Error::InvalidWeights),
            Some(l) => if fees_ok(pools, fees) { Ok(l) } else { Err(Error::InvalidWeights) },
        }
    }
}

/// Estimated APR in bps: `fee_bps * volume_proxy_bps / 10_000`.
pub open spec fn apr_spec(fee_bps: int, volume_proxy_bps: int) -> int {
    tdiv(fee_bps * volume_proxy_bps, 10_000)
}

impl MultiYieldVault {
    pub open spec fn wf(&self) -> bool {
        &&& self.pools@.len() <= MAX_POOLS
        &&& forall|i: int, j: int| 0 <= i < j < self.pools@.len() ==> self.pools@[i].pool != self.pools@[j].pool
        &&& forall|i: int| 0 <= i < self.pools@.len() ==> self.pools@[i].weight <= MAX_WEIGHT_BPS
        &&& unique_accounts(self.balances@)
        &&& self.vault matches Some(v) ==> v.total_shares == sum_amounts(self.balances@)
        &&& self.vault is None ==> self.pools@.len() == 0 && self.balances@.len() == 0
    }

    /// A vault that has not been initialized.
    pub fn new() -> (r: MultiYieldVault)
        ensures
            r.wf(),
            r.vault is None,
    {
        MultiYieldVault { vault: None, pools: Vec::new(), balances: Vec::new() }
    }

    pub fn initialize(
        &mut self,
        admin: Account,
        deposit_token: Account,
        slippage_bps: i128,
        volume_proxy_bps: i128,
    ) -> (r: Result<(), Error>)
        requires
            old(self).wf(),
        ensures
            final(self).wf(),
            r == (if old(self).vault is Some {
                Err(Error::AlreadyInitialized)
            } else if slippage_bps < 0 || volume_proxy_bps <= 0 {
                Err(Error::InvalidAmount)
            } else {
                Ok(())
            }),
            r is Ok ==> final(self).vault == Some(VaultState {
                deposit_token, admin, total_shares: 0, slippage_bps, volume_proxy_bps,
            }) && final(self).pools@ == old(self).pools@ && final(self).balances@ == old(self).balances@,
            r is Err ==> *final(self) == *old(self),
    {
        if self.vault.is_some() {
            return Err(Error::AlreadyInitialized);
        }
        if slippage_bps < 0 || volume_proxy_bps <= 0 {
            return Err(Error::InvalidAmount);
        }
        self.vault = Some(VaultState { deposit_token, admin, total_shares: 0, slippage_bps, volume_proxy_bps });
        Ok(())
    }

    /// Registers a new pool with weight 0; `deposit_is_a` says whether the
    /// deposit token is the pool's token_a.
    pub fn register_pool(&mut self, pool: Account, deposit_is_a: bool) -> (r: Result<(), Error>)
        requires
            old(self).wf(),
        ensures
            final(self).wf(),
            r == (if old(self).vault is None {
                Err(Error::NotInitialized)
            } else if old(self).pools@.len() >= MAX_POOLS {
                Err(Error::TooManyPools)
            } else if exists|i: int| 0 <= i < old(self).pools@.len() && old(self).pools@[i].pool == pool {
                Err(Error::PoolAlreadyRegistered)
            } else {
                Ok(())
            }),
            r is Ok ==> final(self).pools@ == old(self).pools@.push(
                PoolAllocation { pool, lp_shares: 0, deposit_is_a, weight: 0 })
                && final(self).vault == old(self).vault && final(self).balances@ == old(self).balances@,
            r is Err ==> *final(self) == *old(self),
    {
        if self.vault.is_none() {
            return Err(Error::NotInitialized);
        }
        if self.pools.len() >= 8 {
            return Err(Error::TooManyPools);
        }
        let mut i: usize = 0;
        while i < self.pools.len()
            invariant
                i <= self.pools@.len(),
                *self == *old(self),
                old(self).wf(),
                old(self).vault is Some,
                old(self).pools@.len() < MAX_POOLS,
                forall|j: int| 0 <= j < i ==> self.pools@[j].pool != pool,
            decreases self.pools@.len() - i,
        {
            if self.pools[i].pool == pool {
                assert(old(self).pools@[i as int].pool == pool);
                return Err(Error::PoolAlreadyRegistered);
            }
            i += 1;
        }
        self.pools.push(PoolAllocation { pool, lp_shares: 0, deposit_is_a, weight: 0 });
        Ok(())
    }

    /// Sets the strategy weights, one per registered pool, in bps: each at
    /// most 5,000, all adding up to 10,000, and every weighted pool must
    /// report a positive fee (`fees[i]` is pool `i`'s fee).
    pub fn set_weights(&mut self, weights: &Vec<u32>, fees: &Vec<i128>) -> (r: Result<(), Error>)
        requires
            old(self).wf(),
            fees@.len() == old(self).pools@.len(),
        ensures
            final(self).wf(),
            r == (if old(self).vault is None {
                Err(Error::NotInitialized)
            } else if weights@.len() != old(self).pools@.len() {
                Err(Error::InvalidWeights)
            } else if exists|i: int| 0 <= i < weights@.len() && weights@[i] > MAX_WEIGHT_BPS {
                Err(Error::InvalidWeights)
            } else if vector_sum(weights@, weights@.len() as int) != TOTAL_WEIGHT_BPS {
                Err(Error::InvalidWeights)
            } else if exists|i: int| 0 <= i < weights@.len() && weights@[i] != 0 && fees@[i] <= 0 {
                Err(Error::InvalidWeights)
            } else {
                Ok(())
            }),
            r is Ok ==> final(self).pools@ == Seq::new(old(self).pools@.len(), |i: int|
                PoolAllocation { weight: weights@[i], ..old(self).pools@[i] })
                && final(self).vault == old(self).vault && final(self).balances@ == old(self).balances@,
            r is Err ==> *final(self) == *old(self),
    {
        if self.vault.is_none() {
            return Err(Error::NotInitialized);
        }
        if weights.len() != self.pools.len() {
            return Err(Error::InvalidWeights);
        }
        let mut sum: u32 = 0;
        let mut i: usize = 0;
        while i < weights.len()
            invariant
                i <= weights@.len(),
                *self == *old(self),
                old(self).wf(),
                weights@.len() == self.pools@.len(),
                weights@.len() <= MAX_POOLS,
                forall|j: int| 0 <= j < i ==> weights@[j] <= MAX_WEIGHT_BPS,
                sum == vector_sum(weights@, i as int),
                sum <= i * 5_000,
            decreases weights@.len() - i,
        {
            let w = weights[i];
            if w > 5_000 {
                return Err(Error::InvalidWeights);
            }
            sum = sum + w;
            i += 1;
        }
        if sum != 10_000 {
            return Err(Error::InvalidWeights);
        }
        let mut k: usize = 0;
        while k < weights.len()
            invariant
                k <= weights@.len(),
                *self == *old(self),
                old(self).wf(),
                old(self).vault is Some,
                weights@.len() == old(self).pools@.len(),
                forall|j: int| 0 <= j < weights@.len() ==> weights@[j] <= MAX_WEIGHT_BPS,
                vector_sum(weights@, weights@.len() as int) == TOTAL_WEIGHT_BPS,
                weights@.len() == fees@.len(),
                forall|j: int| 0 <= j < k ==> weights@[j] == 0 || fees@[j] > 0,
            decreases weights@.len() - k,
        {
            if weights[k] != 0 && fees[k] <= 0 {
                assert(weights@[k as int] != 0 && fees@[k as int] <= 0);
                return Err(Error::InvalidWeights);
            }
            k += 1;
        }
        let ghost old_pools = self.pools@;
        let mut j: usize = 0;
        while j < weights.len()
            invariant
                j <= weights@.len(),
                old_pools == old(self).pools@,
                old(self).wf(),
                self.vault == old(self).vault,
                self.balances == old(self).balances,
                forall|m: int| 0 <= m < weights@.len() ==> weights@[m] <= MAX_WEIGHT_BPS,
                weights@.len() == old_pools.len(),
                self.pools@.len() == old_pools.len(),
                forall|m: int| 0 <= m < j ==> self.pools@[m] == (PoolAllocation { weight: weights@[m], ..old_pools[m] }),
                forall|m: int| j <= m < old_pools.len() ==> self.pools@[m] == old_pools[m],
            decreases weights@.len() - j,
        {
            let a = self.pools[j];
            self.pools.set(j, PoolAllocation { weight: weights[j], ..a });
            j += 1;
        }
        assert(self.pools@ =~= Seq::new(old_pools.len(), |i: int| PoolAllocation { weight: weights@[i], ..old_pools[i] }));
        Ok(())
    }

    pub fn set_slippage(&mut self, slippage_bps: i128) -> (r: Result<(), Error>)
        requires
            old(self).wf(),
        ensures
            final(self).wf(),
            r == (if old(self).vault is None { Err(Error::NotInitialized) } else { Ok(()) }),
            r is Ok ==> final(self).vault == Some(VaultState { slippage_bps, ..old(self).vault.unwrap() })
                && final(self).pools@ == old(self).pools@ && final(self).balances@ == old(self).balances@,
            r is Err ==> *final(self) == *old(self),
    {
        match self.vault {
            None => Err(Error::NotInitialized),
            Some(v) => {
                self.vault = Some(VaultState { slippage_bps, ..v });
                Ok(())
            },
        }
    }

    pub fn get_vault(&self) -> (r: Result<VaultState, Error>)
        ensures
            r == (match self.vault { Some(v) => Ok(v), None => Err(Error::NotInitialized) }),
    {
        match self.vault {
            Some(v) => Ok(v),
            None => Err(Error::NotInitialized),
        }
    }

    pub fn get_pools(&self) -> (r: Vec<PoolAllocation>)
        ensures
            r@ == self.pools@,
    {
        self.pools.clone()
    }

    /// A user's vault shares (0 when they hold none).
    pub fn vault_balance(&self, user: Account) -> (r: i128)
        requires
            self.wf(),
        ensures
            r == amount_in(self.balances@, user),
    {
        balance_of(&self.balances, user)
    }

    /// The estimated APR (in bps) of each registered pool, in order, from
    /// the fee each pool reports.
    pub fn get_aprs(&self, fees: &Vec<i128>) -> (r: Result<Vec<i128>, Error>)
        requires
            fees@.len() == self.pools@.len(),
        ensures
            r matches Err(e) ==> e == (if self.vault is None { Error::NotInitialized } else { Error::Overflow }),
            r is Err <==> (self.vault is None || exists|i: int| 0 <= i < fees@.len()
                && !fits(fees@[i] * self.vault.unwrap().volume_proxy_bps)),
            r matches Ok(v) ==> v@.len() == fees@.len() && forall|i: int| 0 <= i < fees@.len()
                ==> v@[i] == apr_spec(fees@[i] as int, self.vault.unwrap().volume_proxy_bps as int),
    {
        let vault = match self.vault {
            Some(v) => v,
            None => return Err(Error::NotInitialized),
        };
        let mut aprs: Vec<i128> = Vec::new();
        let mut i: usize = 0;
        while i < fees.len()
            invariant
                i <= fees@.len(),
                self.vault == Some(vault),
                aprs@.len() == i,
                forall|j: int| 0 <= j < i ==> fits(fees@[j] * vault.volume_proxy_bps),
                forall|j: int| 0 <= j < i ==> aprs@[j] == apr_spec(fees@[j] as int, vault.volume_proxy_bps as int),
            decreases fees@.len() - i,
        {
            let fee = fees[i];
            match fee.checked_mul(vault.volume_proxy_bps) {
                Some(_) => {},
                None => {
                    assert(!fits(fees@[i as int] * vault.volume_proxy_bps));
                    return Err(Error::Overflow);
                },
            }
            assert(fits(fees@[i as int] * vault.volume_proxy_bps));
            let a = estimate_apr_bps(fee, vault.volume_proxy_bps);
            aprs.push(a);
            assert(aprs@[i as int] == apr_spec(fees@[i as int] as int, vault.volume_proxy_bps as int));
            i += 1;
        }
        Ok(aprs)
    }

    /// The index of the first pool with the highest estimated APR (0 when
    /// no pool has a nonnegative one).
    pub fn best_pool_idx(fees: &Vec<i128>, vault: &VaultState) -> (r: u32)
        requires
            fees@.len() <= MAX_POOLS,
            forall|i: int| 0 <= i < fees@.len() ==> fits(fees@[i] * vault.volume_proxy_bps),
        ensures
            r == best_idx_spec(fees@, vault.volume_proxy_bps as int, fees@.len() as int).0,
    {
        let mut best_idx: u32 = 0;
        let mut best_apr: i128 = -1;
        let mut i: usize = 0;
        while i < fees.len()
            invariant
                i <= fees@.len() <= MAX_POOLS,
                forall|j: int| 0 <= j < fees@.len() ==> fits(fees@[j] * vault.volume_proxy_bps),
                (best_idx as int, best_apr as int) == best_idx_spec(fees@, vault.volume_proxy_bps as int, i as int),
            decreases fees@.len() - i,
        {
            let apr = estimate_apr_bps(fees[i], vault.volume_proxy_bps);
            if apr > best_apr {
                best_apr = apr;
                best_idx = i as u32;
            }
            i += 1;
        }
        best_idx
    }
}

/// Sum of the first `k` entries of `s`.
pub open spec fn vector_sum(s: Seq<u32>, k: int) -> int
    decreases k,
{
    if k <= 0 { 0 } else { vector_sum(s, k - 1) + s[k - 1] }
}

/// (index, APR) of the first pool with the highest APR among the first `k`,
/// starting from (0, -1).
pub open spec fn best_idx_spec(fees: Seq<i128>, volume_proxy_bps: int, k: int) -> (int, int)
    decreases k,
{
    if k <= 0 {
        (0, -1)
    } else {
        let (bi, ba) = best_idx_spec(fees, volume_proxy_bps, k - 1);
        let apr = apr_spec(fees[k - 1] as int, volume_proxy_bps);
        if apr > ba { (k - 1, apr) } else { (bi, ba) }
    }
}

/// Estimated APR in bps of a pool with fee `fee_bps`, for ranking:
/// `fee_bps * volume_proxy_bps / 10_000`.
pub fn estimate_apr_bps(fee_bps: i128, volume_proxy_bps: i128) -> (r: i128)
    requires
        fits(fee_bps * volume_proxy_bps),
    ensures
        r == apr_spec(fee_bps as int, volume_proxy_bps as int),
{
    let p = fee_bps * volume_proxy_bps;
    match checked_div(p, 10_000) {
        Some(v) => v,
        None => 0,
    }
}

/// How much of the deposit token the vault has in a pool, as the vault
/// approximates it: nothing without LP shares, else the pool's reserve of
/// the deposit token (`reserve_a` or `reserve_b`, as the pool reports them).
pub fn deposit_value_in_pool(alloc: &PoolAllocation, reserve_a: i128, reserve_b: i128) -> (r: i128)
    ensures
        r == (if alloc.lp_shares == 0 { 0 } else if alloc.deposit_is_a { reserve_a } else { reserve_b }),
{
    if alloc.lp_shares == 0 {
        return 0;
    }
    if alloc.deposit_is_a { reserve_a } else { reserve_b }
}

/// `Err(InvalidWeights)` when a weighted pool reports a fee that is not
/// positive (`fees[i]` is pool `i`'s fee).
pub fn validate_weighted_pools(pools: &Vec<PoolAllocation>, fees: &Vec<i128>) -> (r: Result<(), Error>)
    requires
        fees@.len() == pools@.len(),
    ensures
        r == (if fees_ok(pools@, fees@) { Ok(()) } else { Err(Error::InvalidWeights) }),
{
    let mut i: usize = 0;
    while i < pools.len()
        invariant
            i <= pools@.len(),
            fees@.len() == pools@.len(),
            forall|j: int| 0 <= j < i && pools@[j].weight != 0 ==> fees@[j] > 0,
        decreases pools@.len() - i,
    {
        if pools[i].weight != 0 && fees[i] <= 0 {
            return Err(Error::InvalidWeights);
        }
        i += 1;
    }
    Ok(())
}


/// The weighted share of `total` for a pool of weight `w` (rounded down).
pub open spec fn weighted_share(total: int, w: u32) -> int {
    total * w / 10_000
}

/// Sum of the weighted shares of the first `k` pools, leaving out pool `last`.
pub open spec fn shares_before(pools: Seq<PoolAllocation>, total: int, last: int, k: int) -> int
    decreases k,
{
    if k <= 0 {
        0
    } else {
        shares_before(pools, total, last, k - 1)
            + if k - 1 == last { 0 } else { weighted_share(total, pools[k - 1].weight) }
    }
}

/// The part of `total` that goes to pool `i`: nothing for an unweighted
/// pool, the weighted share for the others, and for the last weighted pool
/// whatever the other shares leave.
pub open spec fn split_amount(pools: Seq<PoolAllocation>, total: int, last: int, i: int) -> int {
    if pools[i].weight == 0 {
        0
    } else if i == last {
        total - shares_before(pools, total, last, pools.len() as int)
    } else {
        weighted_share(total, pools[i].weight)
    }
}

/// The product `total * weight` of some weighted pool other than the last
/// overflows (the contract traps computing its share).
pub open spec fn split_overflows(pools: Seq<PoolAllocation>, total: int, last: int) -> bool {
    exists|j: int| 0 <= j < pools.len() && j != last && pools[j].weight > 0
        && !fits(total * pools[j].weight)
}

/// The amounts, one per pool, into which `total` is split by weight.
pub open spec fn split_seq(pools: Seq<PoolAllocation>, total: int, last: int) -> Seq<i128> {
    Seq::new(pools.len(), |i: int| split_amount(pools, total, last, i) as i128)
}

/// Sum of the first `k` entries of `s`.
pub open spec fn amount_sum(s: Seq<i128>, k: int) -> int
    decreases k,
{
    if k <= 0 { 0 } else { amount_sum(s, k - 1) + s[k - 1] }
}

/// The pools, their weights adding up to 100%, and `last` the last
/// weighted one.
pub open spec fn split_ready(pools: Seq<PoolAllocation>, last: int) -> bool {
    &&& weight_sum(pools, pools.len() as int) == TOTAL_WEIGHT_BPS
    &&& 0 <= last < pools.len()
    &&& pools[last].weight > 0
    &&& forall|j: int| last < j < pools.len() ==> pools[j].weight == 0
}

proof fn lemma_weight_sum_prefix(pools: Seq<PoolAllocation>, k: int)
    requires
        0 <= k <= pools.len(),
    ensures
        0 <= weight_sum(pools, k) <= weight_sum(pools, pools.len() as int),
    decreases pools.len() - k,
{
    lemma_weight_sum_nonneg(pools, k);
    if k < pools.len() {
        lemma_weight_sum_prefix(pools, k + 1);
    }
}

proof fn lemma_weight_sum_nonneg(pools: Seq<PoolAllocation>, k: int)
    ensures
        weight_sum(pools, k) >= 0,
    decreases k,
{
    if k > 0 {
        lemma_weight_sum_nonneg(pools, k - 1);
    }
}

/// The shares taken before pool `k` are nonnegative and, times 10,000, at
/// most `total` times the weights of those pools.
proof fn lemma_shares_bound(pools: Seq<PoolAllocation>, total: int, last: int, k: int)
    requires
        total >= 0,
        0 <= k <= pools.len(),
    ensures
        0 <= shares_before(pools, total, last, k),
        10_000 * shares_before(pools, total, last, k) <= total * weight_sum(pools, k),
    decreases k,
{
    if k > 0 {
        lemma_shares_bound(pools, total, last, k - 1);
        let w = pools[k - 1].weight as int;
        let ws = weight_sum(pools, k - 1);
        assert(total * ws + total * w == total * (ws + w)) by (nonlinear_arith);
        assert(0 <= total * w) by (nonlinear_arith)
            requires total >= 0, w >= 0;
        assert(10_000 * ((total * w) / 10_000) <= total * w) by (nonlinear_arith)
            requires total * w >= 0;
        assert(0 <= (total * w) / 10_000) by (nonlinear_arith)
            requires total * w >= 0;
    }
}

/// Past the last weighted pool nothing more is taken.
proof fn lemma_shares_after_last(pools: Seq<PoolAllocation>, total: int, last: int, k: int)
    requires
        0 <= last < k <= pools.len(),
        forall|j: int| last < j < pools.len() ==> pools[j].weight == 0,
    ensures
        shares_before(pools, total, last, k) == shares_before(pools, total, last, last),
    decreases k,
{
    if k > last + 1 {
        lemma_shares_after_last(pools, total, last, k - 1);
        assert(weighted_share(total, pools[k - 1].weight) == 0);
    }
}

/// The whole of `total` is taken by the other pools' shares and the last
/// weighted pool's remainder.
proof fn lemma_shares_within_total(pools: Seq<PoolAllocation>, total: int, last: int)
    requires
        total >= 0,
        split_ready(pools, last),
    ensures
        0 <= shares_before(pools, total, last, pools.len() as int) <= total,
{
    lemma_shares_bound(pools, total, last, pools.len() as int);
    assert(total * weight_sum(pools, pools.len() as int) == total * 10_000);
}

proof fn lemma_split_prefix_sum(pools: Seq<PoolAllocation>, total: int, last: int, k: int)
    requires
        0 <= total <= i128::MAX,
        split_ready(pools, last),
        forall|i: int| 0 <= i < pools.len() ==> pools[i].weight <= MAX_WEIGHT_BPS,
        0 <= k <= pools.len(),
    ensures
        amount_sum(split_seq(pools, total, last), k) == shares_before(pools, total, last, k)
            + if k > last { split_amount(pools, total, last, last) } else { 0 },
    decreases k,
{
    if k > 0 {
        lemma_split_prefix_sum(pools, total, last, k - 1);
        lemma_shares_within_total(pools, total, last);
        lemma_shares_bound(pools, total, last, pools.len() as int);
        let w = pools[k - 1].weight;
        if w == 0 {
            assert(weighted_share(total, w) == 0);
        }
        if k - 1 != last && w != 0 {
            assert(0 <= (total * w) / 10_000 <= total) by (nonlinear_arith)
                requires total >= 0, 0 <= w <= 10_000;
        }
        assert(0 <= split_amount(pools, total, last, k - 1) <= total);
        assert(split_seq(pools, total, last)[k - 1] == split_amount(pools, total, last, k - 1));
    }
}

/// A split by weight hands out all of `total` and no negative amount: the
/// amounts deposited into the pools add up to exactly what was deposited
/// into (or withdrawn from the pools by) the vault.
pub proof fn law_split_conserves_total(pools: Seq<PoolAllocation>, total: int, last: int)
    requires
        total >= 0,
        split_ready(pools, last),
        forall|i: int| 0 <= i < pools.len() ==> pools[i].weight <= MAX_WEIGHT_BPS,
        !split_overflows(pools, total, last),
        total <= i128::MAX,
    ensures
        amount_sum(split_seq(pools, total, last), pools.len() as int) == total,
        forall|i: int| 0 <= i < pools.len() ==> 0 <= #[trigger] split_seq(pools, total, last)[i] <= total,
{
    lemma_split_prefix_sum(pools, total, last, pools.len() as int);
    lemma_shares_within_total(pools, total, last);
    assert forall|i: int| 0 <= i < pools.len() implies 0 <= #[trigger] split_seq(pools, total, last)[i] <= total by {
        let w = pools[i].weight;
        if w != 0 && i != last {
            assert(0 <= (total * w) / 10_000 <= total) by (nonlinear_arith)
                requires total >= 0, 0 <= w <= 10_000;
        }
    }
}

/// Splits `total` over the pools by weight, the last weighted pool (`last`)
/// taking the rounding remainder; `None` where the contract traps.
pub fn split_by_weight(pools: &Vec<PoolAllocation>, total: i128, last: usize) -> (r: Option<Vec<i128>>)
    requires
        total > 0,
        split_ready(pools@, last as int),
        forall|i: int| 0 <= i < pools@.len() ==> pools@[i].weight <= MAX_WEIGHT_BPS,
    ensures
        r is None <==> split_overflows(pools@, total as int, last as int),
        r matches Some(v) ==> v@ == split_seq(pools@, total as int, last as int),
{
    let ghost ps = pools@;
    proof {
        lemma_shares_within_total(ps, total as int, last as int);
        lemma_shares_after_last(ps, total as int, last as int, ps.len() as int);
    }
    let mut out: Vec<i128> = Vec::new();
    let mut rem: i128 = total;
    let mut i: usize = 0;
    while i < pools.len()
        invariant
            ps == pools@,
            total > 0,
            split_ready(ps, last as int),
            forall|m: int| 0 <= m < ps.len() ==> ps[m].weight <= MAX_WEIGHT_BPS,
            0 <= shares_before(ps, total as int, last as int, ps.len() as int) <= total,
            shares_before(ps, total as int, last as int, ps.len() as int)
                == shares_before(ps, total as int, last as int, last as int),
            i <= ps.len(),
            out@.len() == i,
            forall|j: int| 0 <= j < i ==> out@[j] == split_seq(ps, total as int, last as int)[j],
            forall|j: int| 0 <= j < i && j != last && ps[j].weight > 0 ==> fits(total * ps[j].weight),
            i <= last ==> rem == total - shares_before(ps, total as int, last as int, i as int),
            i > last ==> rem == 0,
        decreases ps.len() - i,
    {
        let a = pools[i];
        let amt: i128;
        if a.weight == 0 {
            amt = 0;
            proof {
                if i < last {
                    assert(weighted_share(total as int, a.weight) == 0);
                }
            }
        } else if i == last {
            proof {
                lemma_shares_bound(ps, total as int, last as int, i as int);
            }
            amt = rem;
        } else {
            let p = match total.checked_mul(a.weight as i128) {
                Some(p) => p,
                None => {
                    assert(!fits(total * ps[i as int].weight));
                    return None;
                },
            };
            amt = p / 10_000;
            proof {
                lemma_shares_bound(ps, total as int, last as int, i as int + 1);
                lemma_weight_sum_prefix(ps, i as int + 1);
                assert(total as int * weight_sum(ps, i as int + 1) <= total as int * 10_000) by (nonlinear_arith)
                    requires total > 0, weight_sum(ps, i as int + 1) <= 10_000;
                assert(0 <= (p as int) / 10_000) by (nonlinear_arith)
                    requires p >= 0;
            }
        }
        if amt > 0 {
            out.push(amt);
            rem = rem - amt;
        } else {
            out.push(0);
        }
        i += 1;
    }
    proof {
        assert(out@ =~= split_seq(ps, total as int, last as int));
    }
    Some(out)
}

/// Adds each pool's newly minted LP shares (`minted[i]`) to the pools that
/// received a deposit (`amounts[i] > 0`).
pub open spec fn credited(pools: Seq<PoolAllocation>, amounts: Seq<i128>, minted: Seq<i128>) -> Seq<PoolAllocation> {
    Seq::new(pools.len(), |i: int|
        if amounts[i] > 0 {
            PoolAllocation { lp_shares: (pools[i].lp_shares + minted[i]) as i128, ..pools[i] }
        } else {
            pools[i]
        })
}

/// Crediting some pool's minted LP shares overflows.
pub open spec fn credit_overflows(pools: Seq<PoolAllocation>, amounts: Seq<i128>, minted: Seq<i128>) -> bool {
    exists|i: int| 0 <= i < pools.len() && amounts[i] > 0 && !fits(pools[i].lp_shares + minted[i])
}

/// Every pool's APR estimate `fees[i] * volume_proxy_bps` fits an `i128`.
pub open spec fn aprs_fit(fees: Seq<i128>, volume_proxy_bps: int) -> bool {
    forall|i: int| 0 <= i < fees.len() ==> fits(fees[i] * volume_proxy_bps)
}

/// The whole `amount` for pool `best`, nothing for the other `n - 1`.
pub open spec fn all_to(n: int, best: int, amount: int) -> Seq<i128> {
    Seq::new(n as nat, |i: int| if i == best { amount as i128 } else { 0i128 })
}

/// What a deposit of `amount` puts into each pool (the whole amount into
/// the pool with the highest estimated APR), or why the deposit is refused.
pub open spec fn deposit_plan_spec(
    vault: Option<VaultState>,
    pools: Seq<PoolAllocation>,
    amount: int,
    fees: Seq<i128>,
) -> Result<Seq<i128>, Error> {
    if amount <= 0 {
        Err(Error::InvalidAmount)
    } else if vault is None {
        Err(Error::NotInitialized)
    } else if pools.len() == 0 {
        Err(Error::PoolNotFound)
    } else if !aprs_fit(fees, vault.unwrap().volume_proxy_bps as int) {
        Err(Error::Overflow)
    } else {
        Ok(all_to(pools.len() as int,
            best_idx_spec(fees, vault.unwrap().volume_proxy_bps as int, fees.len() as int).0, amount))
    }
}

/// Checks the strategy weights (see `weights_check`) and returns the index
/// of the last weighted pool.
pub fn check_weights(pools: &Vec<PoolAllocation>, fees: &Vec<i128>) -> (r: Result<usize, Error>)
    requires
        fees@.len() == pools@.len(),
        pools@.len() <= MAX_POOLS,
        forall|i: int| 0 <= i < pools@.len() ==> pools@[i].weight <= MAX_WEIGHT_BPS,
    ensures
        r matches Ok(l) ==> weights_check(pools@, fees@) == Ok::<int, Error>(l as int) && split_ready(pools@, l as int),
        r matches Err(e) ==> weights_check(pools@, fees@) == Err::<int, Error>(e),
{
    let mut sum: u32 = 0;
    let mut last: Option<usize> = None;
    let mut i: usize = 0;
    while i < pools.len()
        invariant
            i <= pools@.len() <= MAX_POOLS,
            forall|m: int| 0 <= m < pools@.len() ==> pools@[m].weight <= MAX_WEIGHT_BPS,
            sum == weight_sum(pools@, i as int),
            sum <= i * 5_000,
            last matches Some(l) ==> l < i && pools@[l as int].weight > 0
                && forall|j: int| l < j < i ==> pools@[j].weight == 0,
            last is None ==> forall|j: int| 0 <= j < i ==> pools@[j].weight == 0,
        decreases pools@.len() - i,
    {
        let w = pools[i].weight;
        sum = sum + w;
        if w > 0 {
            last = Some(i);
        }
        i += 1;
    }
    if sum != 10_000 {
        return Err(Error::InvalidWeights);
    }
    let l = match last {
        Some(l) => l,
        None => {
            assert(!exists|j: int| 0 <= j < pools@.len() && pools@[j].weight > 0);
            return Err(Error::InvalidWeights);
        },
    };
    proof {
        let p = |j: int| 0 <= j < pools@.len() && pools@[j].weight > 0
            && forall|m: int| j < m < pools@.len() ==> pools@[m].weight == 0;
        assert(p(l as int));
        let c = choose|j: int| 0 <= j < pools@.len() && pools@[j].weight > 0
            && forall|m: int| j < m < pools@.len() ==> pools@[m].weight == 0;
        assert(p(c));
        if c < l {
            assert(pools@[l as int].weight == 0);
        }
        if c > l {
            assert(pools@[c].weight == 0);
        }
        assert(last_weighted(pools@) == Some(l as int));
    }
    match validate_weighted_pools(pools, fees) {
        Ok(()) => Ok(l),
        Err(e) => Err(e),
    }
}

impl MultiYieldVault {
    /// What a deposit of `amount` puts into each pool (`fees[i]` is pool
    /// `i`'s fee): the whole amount into the pool with the highest estimated
    /// APR, 0 into the others.
    pub fn deposit_plan(&self, amount: i128, fees: &Vec<i128>) -> (r: Result<Vec<i128>, Error>)
        requires
            self.wf(),
            fees@.len() == self.pools@.len(),
        ensures
            r matches Ok(v) ==> deposit_plan_spec(self.vault, self.pools@, amount as int, fees@) == Ok::<Seq<i128>, Error>(v@),
            r matches Err(e) ==> deposit_plan_spec(self.vault, self.pools@, amount as int, fees@) == Err::<Seq<i128>, Error>(e),
    {
        if amount <= 0 {
            return Err(Error::InvalidAmount);
        }
        let vault = match self.vault {
            Some(v) => v,
            None => return Err(Error::NotInitialized),
        };
        if self.pools.len() == 0 {
            return Err(Error::PoolNotFound);
        }
        let mut i: usize = 0;
        while i < fees.len()
            invariant
                i <= fees@.len(),
                amount > 0,
                self.vault == Some(vault),
                self.pools@.len() > 0,
                forall|j: int| 0 <= j < i ==> fits(fees@[j] * vault.volume_proxy_bps),
            decreases fees@.len() - i,
        {
            if fees[i].checked_mul(vault.volume_proxy_bps).is_none() {
                assert(!fits(fees@[i as int] * vault.volume_proxy_bps));
                assert(!aprs_fit(fees@, vault.volume_proxy_bps as int));
                return Err(Error::Overflow);
            }
            i += 1;
        }
        let best = Self::best_pool_idx(fees, &vault);
        let mut out: Vec<i128> = Vec::new();
        let mut k: usize = 0;
        while k < self.pools.len()
            invariant
                k <= self.pools@.len(),
                out@.len() == k,
                forall|j: int| 0 <= j < k ==> out@[j] == (if j == best { amount } else { 0i128 }),
            decreases self.pools@.len() - k,
        {
            out.push(if k == best as usize { amount } else { 0 });
            k += 1;
        }
        assert(out@ =~= all_to(self.pools@.len() as int, best as int, amount as int));
        Ok(out)
    }

    /// Deposits `amount` of the deposit token from `from`: the vault pulls
    /// it in, routes it to the pool with the highest estimated APR
    /// (`deposit_plan`; `minted[i]` is the LP shares pool `i` minted for its
    /// part) and credits `from` with
    /// `amount` vault shares, which it returns.
    pub fn deposit(
        &mut self,
        this: Account,
        from: Account,
        amount: i128,
        fees: &Vec<i128>,
        minted: &Vec<i128>,
        transfers: &mut Vec<Transfer>,
    ) -> (r: Result<i128, Error>)
        requires
            old(self).wf(),
            fees@.len() == old(self).pools@.len(),
            minted@.len() == old(self).pools@.len(),
        ensures
            final(self).wf(),
            ({
                let plan = deposit_plan_spec(old(self).vault, old(self).pools@, amount as int, fees@);
                let cur = amount_in(old(self).balances@, from);
                match plan {
                    Err(e) => r == Err::<i128, Error>(e),
                    Ok(amounts) => if credit_overflows(old(self).pools@, amounts, minted@)
                        || !fits(cur + amount)
                        || !fits(old(self).vault.unwrap().total_shares + amount) {
                        r == Err::<i128, Error>(Error::Overflow)
                    } else {
                        &&& r == Ok::<i128, Error>(amount)
                        &&& final(self).pools@ == credited(old(self).pools@, amounts, minted@)
                        &&& final(self).vault == Some(VaultState {
                            total_shares: (old(self).vault.unwrap().total_shares + amount) as i128,
                            ..old(self).vault.unwrap()
                        })
                        &&& forall|b: Account| #[trigger] amount_in(final(self).balances@, b)
                            == if b == from { cur + amount } else { amount_in(old(self).balances@, b) }
                        &&& final(transfers)@ == old(transfers)@.push(Transfer {
                            token: old(self).vault.unwrap().deposit_token, from, to: this, amount,
                        })
                    },
                }
            }),
            r is Err ==> *final(self) == *old(self) && final(transfers)@ == old(transfers)@,
    {
        let amounts = match self.deposit_plan(amount, fees) {
            Ok(v) => v,
            Err(e) => return Err(e),
        };
        let vault = match self.vault {
            Some(v) => v,
            None => return Err(Error::NotInitialized),
        };
        let new_pools = match credit_pools(&self.pools, &amounts, minted) {
            Some(p) => p,
            None => return Err(Error::Overflow),
        };
        let cur = balance_of(&self.balances, from);
        let new_bal = match cur.checked_add(amount) {
            Some(x) => x,
            None => return Err(Error::Overflow),
        };
        let new_total = match vault.total_shares.checked_add(amount) {
            Some(x) => x,
            None => return Err(Error::Overflow),
        };
        transfers.push(Transfer { token: vault.deposit_token, from, to: this, amount });
        self.pools = new_pools;
        set_balance(&mut self.balances, from, new_bal);
        self.vault = Some(VaultState { total_shares: new_total, ..vault });
        Ok(amount)
    }
}

/// `credited(pools, amounts, minted)`, or `None` where it overflows.
fn credit_pools(pools: &Vec<PoolAllocation>, amounts: &Vec<i128>, minted: &Vec<i128>) -> (r: Option<Vec<PoolAllocation>>)
    requires
        amounts@.len() == pools@.len(),
        minted@.len() == pools@.len(),
    ensures
        r is None <==> credit_overflows(pools@, amounts@, minted@),
        r matches Some(v) ==> v@ == credited(pools@, amounts@, minted@),
{
    let mut out: Vec<PoolAllocation> = Vec::new();
    let mut i: usize = 0;
    while i < pools.len()
        invariant
            i <= pools@.len(),
            amounts@.len() == pools@.len(),
            minted@.len() == pools@.len(),
            out@.len() == i,
            forall|j: int| 0 <= j < i ==> out@[j] == credited(pools@, amounts@, minted@)[j],
            forall|j: int| 0 <= j < i && amounts@[j] > 0 ==> fits(pools@[j].lp_shares + minted@[j]),
        decreases pools@.len() - i,
    {
        let a = pools[i];
        if amounts[i] > 0 {
            let lp = match a.lp_shares.checked_add(minted[i]) {
                Some(x) => x,
                None => {
                    assert(!fits(pools@[i as int].lp_shares + minted@[i as int]));
                    return None;
                },
            };
            out.push(PoolAllocation { lp_shares: lp, ..a });
        } else {
            out.push(a);
        }
        i += 1;
    }
    assert(out@ =~= credited(pools@, amounts@, minted@));
    Some(out)
}


/// LP shares burned in a pool holding `lp` for a withdrawal of `shares` out
/// of `total` vault shares: the same fraction, rounded toward zero.
pub open spec fn burn_amount(lp: int, shares: int, total: int) -> int {
    if lp == 0 { 0 } else { tdiv(lp * shares, total) }
}

/// The contract traps computing some pool's burn.
pub open spec fn burn_traps(pools: Seq<PoolAllocation>, shares: int, total: int) -> bool {
    exists|i: int| 0 <= i < pools.len() && pools[i].lp_shares != 0
        && !(fits(pools[i].lp_shares * shares) && div_ok(pools[i].lp_shares * shares, total))
}

pub open spec fn burn_seq(pools: Seq<PoolAllocation>, shares: int, total: int) -> Seq<i128> {
    Seq::new(pools.len(), |i: int| burn_amount(pools[i].lp_shares as int, shares, total) as i128)
}

/// What each pool's withdrawal gave back in the deposit token (`outs[i]` is
/// the pair of amounts pool `i` paid out); nothing where nothing was burned.
pub open spec fn received_seq(pools: Seq<PoolAllocation>, burns: Seq<i128>, outs: Seq<(i128, i128)>) -> Seq<i128> {
    Seq::new(pools.len(), |i: int|
        if burns[i] == 0 { 0i128 } else if pools[i].deposit_is_a { outs[i].0 } else { outs[i].1 })
}

/// Some running total of `s` overflows.
pub open spec fn running_sum_overflows(s: Seq<i128>) -> bool {
    exists|k: int| 1 <= k <= s.len() && !fits(amount_sum(s, k))
}

/// The pools after burning `burns`.
pub open spec fn burned(pools: Seq<PoolAllocation>, burns: Seq<i128>) -> Seq<PoolAllocation> {
    Seq::new(pools.len(), |i: int| PoolAllocation { lp_shares: (pools[i].lp_shares - burns[i]) as i128, ..pools[i] })
}

pub open spec fn burn_overflows(pools: Seq<PoolAllocation>, burns: Seq<i128>) -> bool {
    exists|i: int| 0 <= i < pools.len() && !fits(pools[i].lp_shares - burns[i])
}

/// The LP shares to burn in each pool for a withdrawal of `shares` by
/// `to`, or why the withdrawal is refused.
pub open spec fn withdraw_plan_spec(
    vault: Option<VaultState>,
    pools: Seq<PoolAllocation>,
    balances: Seq<Entry>,
    to: Account,
    shares: int,
) -> Result<Seq<i128>, Error> {
    if shares <= 0 {
        Err(Error::InvalidAmount)
    } else if vault is None {
        Err(Error::NotInitialized)
    } else if shares > amount_in(balances, to) {
        Err(Error::InsufficientShares)
    } else if burn_traps(pools, shares, vault.unwrap().total_shares as int) {
        Err(Error::Overflow)
    } else {
        Ok(burn_seq(pools, shares, vault.unwrap().total_shares as int))
    }
}

/// `amount_sum(s, s.len())`, or `None` where a running total overflows.
pub fn checked_total(s: &Vec<i128>) -> (r: Option<i128>)
    ensures
        r is None <==> running_sum_overflows(s@),
        r matches Some(t) ==> t == amount_sum(s@, s@.len() as int),
{
    let mut t: i128 = 0;
    let mut i: usize = 0;
    while i < s.len()
        invariant
            i <= s@.len(),
            t == amount_sum(s@, i as int),
            forall|k: int| 1 <= k <= i ==> fits(amount_sum(s@, k)),
        decreases s@.len() - i,
    {
        t = match t.checked_add(s[i]) {
            Some(x) => x,
            None => {
                assert(!fits(amount_sum(s@, i as int + 1)));
                return None;
            },
        };
        i += 1;
    }
    Some(t)
}

impl MultiYieldVault {
    /// The LP shares to burn in each pool (0 for none) when `to` withdraws
    /// `shares` vault shares.
    pub fn withdraw_plan(&self, to: Account, shares: i128) -> (r: Result<Vec<i128>, Error>)
        requires
            self.wf(),
        ensures
            r matches Ok(v) ==> withdraw_plan_spec(self.vault, self.pools@, self.balances@, to, shares as int)
                == Ok::<Seq<i128>, Error>(v@),
            r matches Err(e) ==> withdraw_plan_spec(self.vault, self.pools@, self.balances@, to, shares as int)
                == Err::<Seq<i128>, Error>(e),
    {
        if shares <= 0 {
            return Err(Error::InvalidAmount);
        }
        let vault = match self.vault {
            Some(v) => v,
            None => return Err(Error::NotInitialized),
        };
        let cur = balance_of(&self.balances, to);
        if shares > cur {
            return Err(Error::InsufficientShares);
        }
        let total = vault.total_shares;
        let mut burns: Vec<i128> = Vec::new();
        let mut i: usize = 0;
        while i < self.pools.len()
            invariant
                i <= self.pools@.len(),
                self.vault == Some(vault),
                total == vault.total_shares,
                shares > 0,
                shares <= amount_in(self.balances@, to),
                burns@.len() == i,
                forall|j: int| 0 <= j < i ==> burns@[j] == burn_seq(self.pools@, shares as int, total as int)[j],
                forall|j: int| 0 <= j < i && self.pools@[j].lp_shares != 0 ==>
                    fits(self.pools@[j].lp_shares * shares) && div_ok(self.pools@[j].lp_shares * shares, total as int),
            decreases self.pools@.len() - i,
        {
            let lp = self.pools[i].lp_shares;
            if lp == 0 {
                burns.push(0);
            } else {
                let p = match lp.checked_mul(shares) {
                    Some(p) => p,
                    None => {
                        assert(!fits(self.pools@[i as int].lp_shares * shares));
                        return Err(Error::Overflow);
                    },
                };
                let b = match checked_div(p, total) {
                    Some(b) => b,
                    None => {
                        assert(!div_ok(self.pools@[i as int].lp_shares * shares, total as int));
                        return Err(Error::Overflow);
                    },
                };
                burns.push(b);
            }
            i += 1;
        }
        assert(burns@ =~= burn_seq(self.pools@, shares as int, total as int));
        Ok(burns)
    }

    /// Withdraws `shares` vault shares for `to`: the same fraction of the
    /// vault's LP shares is burned in every pool (`withdraw_plan`; `outs[i]`
    /// is what pool `i` paid out for its burn), and what came back in the
    /// deposit token is sent to `to` and returned.
    pub fn withdraw(
        &mut self,
        this: Account,
        to: Account,
        shares: i128,
        outs: &Vec<(i128, i128)>,
        transfers: &mut Vec<Transfer>,
    ) -> (r: Result<i128, Error>)
        requires
            old(self).wf(),
            outs@.len() == old(self).pools@.len(),
        ensures
            final(self).wf(),
            ({
                let plan = withdraw_plan_spec(old(self).vault, old(self).pools@, old(self).balances@, to, shares as int);
                match plan {
                    Err(e) => r == Err::<i128, Error>(e),
                    Ok(burns) => {
                        let got = received_seq(old(self).pools@, burns, outs@);
                        let v = old(self).vault.unwrap();
                        if running_sum_overflows(got) || burn_overflows(old(self).pools@, burns)
                            || !fits(v.total_shares - shares) {
                            r == Err::<i128, Error>(Error::Overflow)
                        } else {
                            let total_received = amount_sum(got, got.len() as int);
                            &&& r == Ok::<i128, Error>(total_received as i128)
                            &&& final(self).pools@ == burned(old(self).pools@, burns)
                            &&& final(self).vault == Some(VaultState {
                                total_shares: (v.total_shares - shares) as i128, ..v
                            })
                            &&& forall|b: Account| #[trigger] amount_in(final(self).balances@, b)
                                == if b == to { amount_in(old(self).balances@, to) - shares } else { amount_in(old(self).balances@, b) }
                            &&& final(transfers)@ == old(transfers)@.push(Transfer {
                                token: v.deposit_token, from: this, to, amount: total_received as i128,
                            })
                        }
                    },
                }
            }),
            r is Err ==> *final(self) == *old(self) && final(transfers)@ == old(transfers)@,
    {
        let burns = match self.withdraw_plan(to, shares) {
            Ok(b) => b,
            Err(e) => return Err(e),
        };
        let vault = match self.vault {
            Some(v) => v,
            None => return Err(Error::NotInitialized),
        };
        let ghost ps = self.pools@;
        let mut got: Vec<i128> = Vec::new();
        let mut new_pools: Vec<PoolAllocation> = Vec::new();
        let mut i: usize = 0;
        while i < self.pools.len()
            invariant
                ps == self.pools@,
                *self == *old(self),
                *transfers == *old(transfers),
                old(self).wf(),
                self.vault == Some(vault),
                withdraw_plan_spec(old(self).vault, old(self).pools@, old(self).balances@, to, shares as int)
                    == Ok::<Seq<i128>, Error>(burns@),
                burns@.len() == ps.len(),
                outs@.len() == ps.len(),
                i <= ps.len(),
                got@.len() == i,
                new_pools@.len() == i,
                forall|j: int| 0 <= j < i ==> got@[j] == received_seq(ps, burns@, outs@)[j],
                forall|j: int| 0 <= j < i ==> new_pools@[j] == burned(ps, burns@)[j],
                forall|j: int| 0 <= j < i ==> fits(ps[j].lp_shares - burns@[j]),
            decreases ps.len() - i,
        {
            let a = self.pools[i];
            let b = burns[i];
            let lp = match a.lp_shares.checked_sub(b) {
                Some(x) => x,
                None => {
                    assert(!fits(ps[i as int].lp_shares - burns@[i as int]));
                    return Err(Error::Overflow);
                },
            };
            new_pools.push(PoolAllocation { lp_shares: lp, ..a });
            if b == 0 {
                got.push(0);
            } else if a.deposit_is_a {
                got.push(outs[i].0);
            } else {
                got.push(outs[i].1);
            }
            i += 1;
        }
        assert(got@ =~= received_seq(ps, burns@, outs@));
        assert(new_pools@ =~= burned(ps, burns@));
        let total_received = match checked_total(&got) {
            Some(t) => t,
            None => return Err(Error::Overflow),
        };
        let new_total = match vault.total_shares.checked_sub(shares) {
            Some(x) => x,
            None => return Err(Error::Overflow),
        };
        let cur = balance_of(&self.balances, to);
        transfers.push(Transfer { token: vault.deposit_token, from: this, to, amount: total_received });
        self.pools = new_pools;
        set_balance(&mut self.balances, to, cur - shares);
        self.vault = Some(VaultState { total_shares: new_total, ..vault });
        Ok(total_received)
    }
}

/// The slippage-checked withdrawal of every position, over the first `k`
/// pools: `reserves[i]` is pool `i`'s reserve of the deposit token and
/// `received[i]` what withdrawing all of the vault's LP shares there gave
/// back in it. A withdrawal must return at least `min(reserve, lp_shares)`
/// less `slippage_bps`; `Ok` holds the total received so far.
pub open spec fn unwind_acc(
    pools: Seq<PoolAllocation>,
    reserves: Seq<i128>,
    received: Seq<i128>,
    slippage_bps: int,
    k: int,
) -> Result<int, Error>
    decreases k,
{
    if k <= 0 {
        Ok(0)
    } else {
        match unwind_acc(pools, reserves, received, slippage_bps, k - 1) {
            Err(e) => Err(e),
            Ok(sum) => {
                let a = pools[k - 1];
                if a.lp_shares == 0 {
                    Ok(sum)
                } else {
                    let expected = if reserves[k - 1] <= a.lp_shares { reserves[k - 1] as int } else { a.lp_shares as int };
                    if !fits(10_000 - slippage_bps) || !fits(expected * (10_000 - slippage_bps)) {
                        Err(Error::Overflow)
                    } else if received[k - 1] < tdiv(expected * (10_000 - slippage_bps), 10_000) {
                        Err(Error::SlippageExceeded)
                    } else if !fits(sum + received[k - 1]) {
                        Err(Error::Overflow)
                    } else {
                        Ok(sum + received[k - 1])
                    }
                }
            },
        }
    }
}

/// Once the unwinding fails it stays failed with the same error.
proof fn lemma_unwind_sticks(
    pools: Seq<PoolAllocation>,
    reserves: Seq<i128>,
    received: Seq<i128>,
    slippage_bps: int,
    k: int,
    n: int,
)
    requires
        k <= n,
    ensures
        unwind_acc(pools, reserves, received, slippage_bps, k) is Err ==>
            unwind_acc(pools, reserves, received, slippage_bps, n) == unwind_acc(pools, reserves, received, slippage_bps, k),
    decreases n - k,
{
    if k < n {
        lemma_unwind_sticks(pools, reserves, received, slippage_bps, k, n - 1);
    }
}

/// The withdrawals a rebalance makes first, in pool order: each pool where
/// the vault holds LP shares gives all of them back.
pub open spec fn withdrawals(pools: Seq<PoolAllocation>) -> Seq<(Account, i128)>
    decreases pools.len(),
{
    if pools.len() == 0 {
        Seq::empty()
    } else {
        let w = withdrawals(pools.drop_last());
        let a = pools.last();
        if a.lp_shares != 0 { w.push((a.pool, a.lp_shares)) } else { w }
    }
}

/// What a rebalance withdraws before anything else: `Ok(None)` when there
/// is nothing to rebalance (at most one pool), else the withdrawals, once
/// the strategy weights pass their check.
pub open spec fn unwind_plan_spec(vault: Option<VaultState>, pools: Seq<PoolAllocation>, fees: Seq<i128>)
    -> Result<Option<Seq<(Account, i128)>>, Error>
{
    match vault {
        None => Err(Error::NotInitialized),
        Some(_) => if pools.len() <= 1 {
            Ok(None)
        } else {
            match weights_check(pools, fees) {
                Err(e) => Err(e),
                Ok(_) => Ok(Some(withdrawals(pools))),
            }
        },
    }
}

/// A rebalance: `Ok(None)` when there is nothing to rebalance (at most one
/// pool); otherwise the last weighted pool, the total withdrawn from the
/// pools and its split by weight for depositing back.
pub open spec fn rebalance_spec(
    vault: Option<VaultState>,
    pools: Seq<PoolAllocation>,
    fees: Seq<i128>,
    reserves: Seq<i128>,
    received: Seq<i128>,
) -> Result<Option<(int, int, Seq<i128>)>, Error> {
    match vault {
        None => Err(Error::NotInitialized),
        Some(v) => if pools.len() <= 1 {
            Ok(None)
        } else {
            match weights_check(pools, fees) {
                Err(e) => Err(e),
                Ok(last) => match unwind_acc(pools, reserves, received, v.slippage_bps as int, pools.len() as int) {
                    Err(e) => Err(e),
                    Ok(total) => if total > 0 {
                        if split_overflows(pools, total, last) {
                            Err(Error::Overflow)
                        } else {
                            Ok(Some((last, total, split_seq(pools, total, last))))
                        }
                    } else {
                        Ok(Some((last, total, Seq::new(pools.len(), |i: int| 0i128))))
                    },
                },
            }
        },
    }
}

/// The pools after a rebalance: every position withdrawn, and the pools that
/// got a deposit back hold the LP shares it minted (`minted[i]`).
pub open spec fn redeposited(pools: Seq<PoolAllocation>, amounts: Seq<i128>, minted: Seq<i128>) -> Seq<PoolAllocation> {
    Seq::new(pools.len(), |i: int|
        PoolAllocation { lp_shares: if amounts[i] > 0 { minted[i] } else { 0i128 }, ..pools[i] })
}

impl MultiYieldVault {
    /// The withdrawals a rebalance makes (`(pool, lp_shares)`: the vault's
    /// whole position in each pool where it holds one, in pool order), or
    /// `Ok(None)` when there is nothing to rebalance. What each withdrawal
    /// gives back in the deposit token is `rebalance`'s `received`.
    pub fn unwind_plan(&self, fees: &Vec<i128>) -> (r: Result<Option<Vec<(Account, i128)>>, Error>)
        requires
            self.wf(),
            fees@.len() == self.pools@.len(),
        ensures
            match r {
                Err(e) => unwind_plan_spec(self.vault, self.pools@, fees@) == Err::<Option<Seq<(Account, i128)>>, Error>(e),
                Ok(None) => unwind_plan_spec(self.vault, self.pools@, fees@) == Ok::<Option<Seq<(Account, i128)>>, Error>(None),
                Ok(Some(w)) => unwind_plan_spec(self.vault, self.pools@, fees@) == Ok::<Option<Seq<(Account, i128)>>, Error>(Some(w@)),
            },
    {
        if self.vault.is_none() {
            return Err(Error::NotInitialized);
        }
        if self.pools.len() <= 1 {
            return Ok(None);
        }
        match check_weights(&self.pools, fees) {
            Ok(_) => {},
            Err(e) => return Err(e),
        }
        let mut out: Vec<(Account, i128)> = Vec::new();
        let mut i: usize = 0;
        while i < self.pools.len()
            invariant
                i <= self.pools@.len(),
                out@ == withdrawals(self.pools@.take(i as int)),
            decreases self.pools@.len() - i,
        {
            let a = self.pools[i];
            proof {
                let t = self.pools@.take(i as int + 1);
                assert(t.drop_last() =~= self.pools@.take(i as int));
            }
            if a.lp_shares != 0 {
                out.push((a.pool, a.lp_shares));
            }
            i += 1;
        }
        assert(self.pools@.take(self.pools@.len() as int) =~= self.pools@);
        Ok(Some(out))
    }

    /// The deposit-token amounts a rebalance deposits back into each pool,
    /// given the pools' fees, reserves and what withdrawing every position
    /// gave back (see `unwind_acc`); `Ok(None)` when there is nothing to
    /// rebalance.
    pub fn rebalance_plan(
        &self,
        fees: &Vec<i128>,
        reserves: &Vec<i128>,
        received: &Vec<i128>,
    ) -> (r: Result<Option<(usize, i128, Vec<i128>)>, Error>)
        requires
            self.wf(),
            fees@.len() == self.pools@.len(),
            reserves@.len() == self.pools@.len(),
            received@.len() == self.pools@.len(),
        ensures
            ({
                let spec = rebalance_spec(self.vault, self.pools@, fees@, reserves@, received@);
                match r {
                    Err(e) => spec == Err::<Option<(int, int, Seq<i128>)>, Error>(e),
                    Ok(None) => spec == Ok::<Option<(int, int, Seq<i128>)>, Error>(None),
                    Ok(Some((l, t, a))) => spec == Ok::<Option<(int, int, Seq<i128>)>, Error>(Some((l as int, t as int, a@))),
                }
            }),
            r matches Ok(Some((l, t, a))) ==> a@.len() == self.pools@.len() && l < self.pools@.len(),
    {
        let vault = match self.vault {
            Some(v) => v,
            None => return Err(Error::NotInitialized),
        };
        if self.pools.len() <= 1 {
            return Ok(None);
        }
        let last = match check_weights(&self.pools, fees) {
            Ok(l) => l,
            Err(e) => return Err(e),
        };
        let s = vault.slippage_bps;
        let mut total: i128 = 0;
        let mut i: usize = 0;
        while i < self.pools.len()
            invariant
                i <= self.pools@.len(),
                reserves@.len() == self.pools@.len(),
                received@.len() == self.pools@.len(),
                unwind_acc(self.pools@, reserves@, received@, s as int, i as int) == Ok::<int, Error>(total as int),
                self.vault == Some(vault),
                s == vault.slippage_bps,
                self.pools@.len() > 1,
                weights_check(self.pools@, fees@) == Ok::<int, Error>(last as int),
            decreases self.pools@.len() - i,
        {
            proof {
                lemma_unwind_sticks(self.pools@, reserves@, received@, s as int, i as int + 1, self.pools@.len() as int);
            }
            let a = self.pools[i];
            if a.lp_shares != 0 {
                let reserve = reserves[i];
                let expected = if reserve <= a.lp_shares { reserve } else { a.lp_shares };
                let keep = match 10_000i128.checked_sub(s) {
                    Some(x) => x,
                    None => return Err(Error::Overflow),
                };
                let p = match expected.checked_mul(keep) {
                    Some(x) => x,
                    None => return Err(Error::Overflow),
                };
                let min_acceptable = match checked_div(p, 10_000) {
                    Some(x) => x,
                    None => return Err(Error::Overflow),
                };
                if received[i] < min_acceptable {
                    return Err(Error::SlippageExceeded);
                }
                total = match total.checked_add(received[i]) {
                    Some(x) => x,
                    None => return Err(Error::Overflow),
                };
            }
            i += 1;
        }
        if total > 0 {
            match split_by_weight(&self.pools, total, last) {
                Some(a) => Ok(Some((last, total, a))),
                None => Err(Error::Overflow),
            }
        } else {
            let mut zeros: Vec<i128> = Vec::new();
            let mut j: usize = 0;
            while j < self.pools.len()
                invariant
                    j <= self.pools@.len(),
                    zeros@.len() == j,
                    forall|m: int| 0 <= m < j ==> zeros@[m] == 0,
                decreases self.pools@.len() - j,
            {
                zeros.push(0);
                j += 1;
            }
            assert(zeros@ =~= Seq::new(self.pools@.len(), |i: int| 0i128));
            Ok(Some((last, total, zeros)))
        }
    }

    /// Rebalances: withdraws every position (slippage-checked; the
    /// withdrawals are `unwind_plan`'s and `received[i]` is what pool `i`'s
    /// gave back) and deposits the total back by weight (`rebalance_plan`; `minted[i]` is what pool
    /// `i` minted for its part). Returns the last weighted pool and the total
    /// moved, for the rebalance event, or `None` when there was nothing to
    /// rebalance.
    pub fn rebalance(
        &mut self,
        fees: &Vec<i128>,
        reserves: &Vec<i128>,
        received: &Vec<i128>,
        minted: &Vec<i128>,
    ) -> (r: Result<Option<(u32, i128)>, Error>)
        requires
            old(self).wf(),
            fees@.len() == old(self).pools@.len(),
            reserves@.len() == old(self).pools@.len(),
            received@.len() == old(self).pools@.len(),
            minted@.len() == old(self).pools@.len(),
        ensures
            final(self).wf(),
            match rebalance_spec(old(self).vault, old(self).pools@, fees@, reserves@, received@) {
                Err(e) => r == Err::<Option<(u32, i128)>, Error>(e),
                Ok(None) => r == Ok::<Option<(u32, i128)>, Error>(None) && *final(self) == *old(self),
                Ok(Some((last, total, amounts))) => {
                    &&& r == Ok::<Option<(u32, i128)>, Error>(Some((last as u32, total as i128)))
                    &&& final(self).pools@ == redeposited(old(self).pools@, amounts, minted@)
                    &&& final(self).vault == old(self).vault
                    &&& final(self).balances@ == old(self).balances@
                },
            },
            r is Err ==> *final(self) == *old(self),
    {
        let plan = match self.rebalance_plan(fees, reserves, received) {
            Ok(Some(p)) => p,
            Ok(None) => return Ok(None),
            Err(e) => return Err(e),
        };
        let (last, total, amounts) = plan;
        let ghost ps = self.pools@;
        let mut new_pools: Vec<PoolAllocation> = Vec::new();
        let mut i: usize = 0;
        while i < self.pools.len()
            invariant
                ps == self.pools@,
                amounts@.len() == ps.len(),
                minted@.len() == ps.len(),
                i <= ps.len(),
                new_pools@.len() == i,
                forall|j: int| 0 <= j < i ==> new_pools@[j] == redeposited(ps, amounts@, minted@)[j],
            decreases ps.len() - i,
        {
            let a = self.pools[i];
            let lp: i128 = if amounts[i] > 0 { minted[i] } else { 0 };
            new_pools.push(PoolAllocation { lp_shares: lp, ..a });
            i += 1;
        }
        assert(new_pools@ =~= redeposited(ps, amounts@, minted@));
        self.pools = new_pools;
        Ok(Some((last as u32, total)))
    }
}

/// A withdrawal of `shares` vault shares burns, in each pool, the
/// vault-wide fraction `shares / total_shares` of the LP the vault holds
/// there, rounded down: `burn * total_shares <= lp * shares <
/// (burn + 1) * total_shares`. So a withdrawal of at most the whole supply
/// never burns more LP than the pool holds.
pub proof fn law_withdraw_burns_vault_fraction(
    vault: VaultState,
    pools: Seq<PoolAllocation>,
    balances: Seq<Entry>,
    to: Account,
    shares: int,
)
    requires
        vault.total_shares > 0,
        forall|i: int| 0 <= i < pools.len() ==> pools[i].lp_shares >= 0,
    ensures
        withdraw_plan_spec(Some(vault), pools, balances, to, shares) matches Ok(burns) ==> {
            &&& burns.len() == pools.len()
            &&& forall|i: int| 0 <= i < pools.len() ==> {
                &&& #[trigger] burns[i] * vault.total_shares <= pools[i].lp_shares * shares
                &&& pools[i].lp_shares * shares < (burns[i] + 1) * vault.total_shares
                &&& shares <= vault.total_shares ==> 0 <= burns[i] <= pools[i].lp_shares
            }
        },
{
    if let Ok(burns) = withdraw_plan_spec(Some(vault), pools, balances, to, shares) {
        let t = vault.total_shares as int;
        assert forall|i: int| 0 <= i < pools.len() implies {
            &&& #[trigger] burns[i] * vault.total_shares <= pools[i].lp_shares * shares
            &&& pools[i].lp_shares * shares < (burns[i] + 1) * vault.total_shares
            &&& shares <= vault.total_shares ==> 0 <= burns[i] <= pools[i].lp_shares
        } by {
            let lp = pools[i].lp_shares as int;
            assert(lp * shares >= 0) by (nonlinear_arith)
                requires lp >= 0, shares > 0;
            if lp != 0 {
                assert(fits(lp * shares));
                vstd::arithmetic::div_mod::lemma_fundamental_div_mod(lp * shares, t);
                assert(tdiv(lp * shares, t) == (lp * shares) / t);
                assert(((lp * shares) / t) * t <= lp * shares < ((lp * shares) / t + 1) * t) by (nonlinear_arith)
                    requires lp * shares == t * ((lp * shares) / t) + (lp * shares) % t, 0 <= (lp * shares) % t < t;
                assert((lp * shares) / t >= 0) by (nonlinear_arith)
                    requires lp * shares >= 0, t > 0;
                assert(burns[i] == (lp * shares) / t);
                if shares <= t {
                    assert(lp * shares <= lp * t) by (nonlinear_arith)
                        requires lp >= 0, shares <= t;
                    assert(burns[i] <= lp) by (nonlinear_arith)
                        requires burns[i] * t <= lp * shares, lp * shares <= lp * t, t > 0;
                }
            } else {
                assert(burns[i] == 0);
                assert(lp * shares == 0) by (nonlinear_arith)
                    requires lp == 0;
            }
        }
    }
}

} // verus!
