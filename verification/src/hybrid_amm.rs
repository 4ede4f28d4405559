//! A constant-product AMM with an on-chain limit order book: swaps fill
//! resting limit orders first (best price first) and the AMM prices the
//! remainder, under a per-ledger matching-depth budget and a price band.

use vstd::prelude::*;
use crate::ledger::{Account, Entry, Transfer, amount_in, sum_amounts, unique_accounts, balance_of, set_balance, lemma_amount_absent};

verus! {

#[derive(Copy, Clone, Debug, PartialEq, Eq, Structural)]
pub enum Error {
    AlreadyInitialized,
    NotInitialized,
    InvalidAmount,
    InvalidPrice,
    OrderNotFound,
    SlippageExceeded,
    InsufficientLiquidity,
    InsufficientShares,
    Unauthorized,
    /// The AMM leg would move the pool's spot price further than
    /// `max_price_deviation_bps`.
    PriceDeviationExceeded,
    /// A guard parameter was outside its permitted range.
    InvalidConfig,
    /// The contract traps here (an arithmetic overflow or a division by
    /// zero); the host aborts the call.
    Overflow,
}

impl Error {
    /// The contract error code (0 for a trap, which has none).
    pub fn code(&self) -> (r: u32)
        ensures
            r == match self {
                Error::AlreadyInitialized => 1u32,
                Error::NotInitialized => 2,
                Error::InvalidAmount => 3,
                Error::InvalidPrice => 4,
                Error::OrderNotFound => 5,
                Error::SlippageExceeded => 6,
                Error::InsufficientLiquidity => 7,
                Error::InsufficientShares => 8,
                Error::Unauthorized => 9,
                Error::PriceDeviationExceeded => 10,
                Error::InvalidConfig => 11,
                Error::Overflow => 0,
            },
    {
        match self {
            Error::AlreadyInitialized => 1,
            Error::NotInitialized => 2,
            Error::InvalidAmount => 3,
            Error::InvalidPrice => 4,
            Error::OrderNotFound => 5,
            Error::SlippageExceeded => 6,
            Error::InsufficientLiquidity => 7,
            Error::InsufficientShares => 8,
            Error::Unauthorized => 9,
            Error::PriceDeviationExceeded => 10,
            Error::InvalidConfig => 11,
            Error::Overflow => 0,
        }
    }
}

/// A single limit order in the book.
#[derive(Copy, Clone, Debug, PartialEq, Eq, Structural)]
pub struct Order {
    pub id: u64,
    pub maker: Account,
    /// true  -> maker offers token_b, wants token_a  (bid: buy A with B)
    /// false -> maker offers token_a, wants token_b  (ask: sell A for B)
    pub is_bid: bool,
    /// Price expressed as token_b per token_a, scaled by PRICE_SCALE.
    pub price: i128,
    /// Remaining amount of the offered token still available.
    pub amount: i128,
}

/// Matching-engine safeguards.
#[derive(Copy, Clone, Debug, PartialEq, Eq, Structural)]
pub struct Guards {
    /// Maximum number of limit orders that may be consumed per ledger, summed
    /// across every swap in that ledger.
    pub max_match_depth: u32,
    /// Maximum tolerated spot-price movement, in basis points.
    pub max_price_deviation_bps: i128,
}

/// Pool + fee state.
#[derive(Copy, Clone, Debug, PartialEq, Eq, Structural)]
pub struct PoolState {
    pub token_a: Account,
    pub token_b: Account,
    pub reserve_a: i128,
    pub reserve_b: i128,
    pub total_shares: i128,
    /// Swap fee in basis points charged on AMM fills (goes to LPs).
    pub lp_fee_bps: i128,
    /// Fee in basis points charged on limit-order fills (goes to maker).
    pub maker_fee_bps: i128,
    pub guards: Guards,
    pub admin: Account,
    pub next_order_id: u64,
}

/// Per-ledger execution-depth accounting for the matching engine.
#[derive(Copy, Clone, Debug, PartialEq, Eq, Structural)]
pub struct MatchDepth {
    /// Ledger sequence the `consumed` count applies to.
    pub ledger: u32,
    /// Limit orders already matched during that ledger.
    pub consumed: u32,
}

#[derive(Copy, Clone, Debug, PartialEq, Eq, Structural)]
pub struct SwapResult {
    pub amount_in: i128,
    pub amount_out: i128,
    /// How much of `amount_out` was filled by limit orders.
    pub lob_filled: i128,
    /// How much of `amount_out` was filled by the AMM.
    pub amm_filled: i128,
}

/// Price scale factor: prices are integers representing (token_b / token_a) * PRICE_SCALE.
pub const PRICE_SCALE: i128 = 1_000_000;
pub const DEFAULT_LP_FEE_BPS: i128 = 30;
pub const DEFAULT_MAKER_FEE_BPS: i128 = 10;
/// Basis-point denominator.
pub const BPS_DENOMINATOR: i128 = 10_000;
/// Suggested execution-depth budget for a single ledger.
pub const DEFAULT_MAX_MATCH_DEPTH: u32 = 8;
/// Hard ceiling on `max_match_depth`.
pub const MAX_MATCH_DEPTH_LIMIT: u32 = 64;
/// Suggested price-deviation tolerance (5%).
pub const DEFAULT_MAX_PRICE_DEVIATION_BPS: i128 = 500;

pub open spec fn guards_valid(g: Guards) -> bool {
    &&& 0 < g.max_match_depth <= MAX_MATCH_DEPTH_LIMIT
    &&& 0 < g.max_price_deviation_bps <= BPS_DENOMINATOR
}

/// Reject guard settings that would defeat their own purpose: a zero depth
/// budget makes the book unmatchable, an oversized one makes swap cost
/// unbounded, and a deviation tolerance of 0 or >100% is meaningless.
pub fn validate_guards(guards: &Guards) -> (r: Result<(), Error>)
    ensures
        r is Ok <==> guards_valid(*guards),
        r is Err ==> r == Err::<(), Error>(Error::InvalidConfig),
{
    if guards.max_match_depth == 0 || guards.max_match_depth > MAX_MATCH_DEPTH_LIMIT {
        return Err(Error::InvalidConfig);
    }
    if guards.max_price_deviation_bps <= 0 || guards.max_price_deviation_bps > BPS_DENOMINATOR {
        return Err(Error::InvalidConfig);
    }
    Ok(())
}

/// The pool spot price (token_b per token_a, scaled by PRICE_SCALE), when
/// the pool holds liquidity on both sides and the scaled price is positive.
pub open spec fn spot_price_spec(reserve_a: int, reserve_b: int) -> Option<int> {
    if reserve_a <= 0 || reserve_b <= 0 {
        None
    } else if reserve_b * PRICE_SCALE > i128::MAX {
        None
    } else if (reserve_b * PRICE_SCALE) / reserve_a <= 0 {
        None
    } else {
        Some((reserve_b * PRICE_SCALE) / reserve_a)
    }
}

/// Pool spot price (token_b per token_a, scaled by `PRICE_SCALE`).
///
/// Returns `None` when the pool holds no liquidity, or when reserves are so
/// lopsided the scaled price truncates to zero.
pub fn spot_price(pool: &PoolState) -> (r: Option<i128>)
    ensures
        r == (match spot_price_spec(pool.reserve_a as int, pool.reserve_b as int) {
            Some(p) => Some(p as i128),
            None => None,
        }),
{
    if pool.reserve_a <= 0 || pool.reserve_b <= 0 {
        return None;
    }
    let scaled = match pool.reserve_b.checked_mul(PRICE_SCALE) {
        Some(v) => v,
        None => return None,
    };
    let price = scaled / pool.reserve_a;
    if price <= 0 {
        None
    } else {
        Some(price)
    }
}

/// |price - reference| in basis points of `reference` (the quotient
/// truncated toward zero), or `InvalidPrice` when the scaled difference
/// overflows.
pub open spec fn deviation_spec(price: int, reference: int) -> Result<int, Error> {
    let diff = if price >= reference { price - reference } else { reference - price };
    if diff * BPS_DENOMINATOR > i128::MAX {
        Err(Error::InvalidPrice)
    } else {
        Ok(tdiv(diff * BPS_DENOMINATOR, reference))
    }
}

/// Absolute distance of `price` from `reference`, in basis points of
/// `reference`. The difference must have an absolute value in `i128` and
/// the reference must not be 0 (the contract traps otherwise).
pub fn deviation_bps(price: i128, reference: i128) -> (r: Result<i128, Error>)
    requires
        reference != 0,
        i128::MIN < price - reference <= i128::MAX,
    ensures
        r == (match deviation_spec(price as int, reference as int) {
            Ok(v) => Ok(v as i128),
            Err(e) => Err(e),
        }),
{
    let diff = if price >= reference { price - reference } else { reference - price };
    match diff.checked_mul(BPS_DENOMINATOR) {
        Some(v) => match checked_div(v, reference) {
            Some(q) => Ok(q),
            None => Err(Error::InvalidPrice),
        },
        None => Err(Error::InvalidPrice),
    }
}

proof fn lemma_sqrt_step_above(x: int, y: int, s: int)
    requires
        y > 0,
        s >= 0,
        s * s <= x,
    ensures
        (x / y + y) / 2 >= s,
{
    let q = x / y;
    vstd::arithmetic::div_mod::lemma_fundamental_div_mod(x, y);
    let r = x % y;
    assert(0 <= r < y);
    assert((q + y) / 2 >= s) by (nonlinear_arith)
        requires
            x == y * q + r,
            0 <= r < y,
            y > 0,
            s >= 0,
            s * s <= x,
    {
        if (q + y) / 2 < s {
            assert(q + y <= 2 * s - 1);
            assert(x < (q + 1) * y);
            assert((q + 1) * y <= (2 * s - y) * y);
            assert((2 * s - y) * y == s * s - (s - y) * (s - y));
        }
    }
}

proof fn lemma_sqrt_step_below(x: int, y: int)
    requires
        y > 0,
        y * y > x,
        x >= 0,
    ensures
        (x / y + y) / 2 < y,
{
    vstd::arithmetic::div_mod::lemma_fundamental_div_mod(x, y);
    let q = x / y;
    let r = x % y;
    assert(q < y) by (nonlinear_arith)
        requires x == y * q + r, 0 <= r < y, y * y > x, y > 0,
    ;
}

/// The integer square root: the largest `r >= 0` with `r * r <= x`.
pub open spec fn is_isqrt(x: int, r: int) -> bool {
    r >= 0 && r * r <= x && x < (r + 1) * (r + 1)
}

/// The integer square root of `x >= 0`.
pub open spec fn isqrt(x: int) -> int {
    choose|r: int| #[trigger] is_isqrt(x, r)
}

proof fn lemma_isqrt_unique(x: int, r1: int, r2: int)
    requires
        is_isqrt(x, r1),
        is_isqrt(x, r2),
    ensures
        r1 == r2,
{
    if r1 < r2 {
        assert((r1 + 1) * (r1 + 1) <= r2 * r2) by (nonlinear_arith)
            requires 0 <= r1 < r2,
        ;
    } else if r2 < r1 {
        assert((r2 + 1) * (r2 + 1) <= r1 * r1) by (nonlinear_arith)
            requires 0 <= r2 < r1,
        ;
    }
}

proof fn lemma_isqrt(x: int, r: int)
    requires
        is_isqrt(x, r),
    ensures
        isqrt(x) == r,
{
    lemma_isqrt_unique(x, r, isqrt(x));
}

/// Integer square root by the Babylonian method.
pub fn sqrt(x: i128) -> (r: i128)
    requires
        0 <= x < i128::MAX,
    ensures
        is_isqrt(x as int, r as int),
        r == isqrt(x as int),
{
    proof {
        lemma_isqrt_exists(x as int);
    }
    if x == 0 {
        proof {
            assert(is_isqrt(0, 0));
            lemma_isqrt(0, 0);
        }
        return 0;
    }
    if x == 0 {
        return 0;
    }
    let ghost s: int = choose|s: int| #[trigger] is_isqrt(x as int, s);
    let mut z = (x + 1) / 2;
    let mut y = x;
    proof {
        assert(s <= x) by (nonlinear_arith)
            requires s >= 0, s * s <= x, x >= 1,
        ;
        lemma_sqrt_step_above(x as int, x as int, s);
        vstd::arithmetic::div_mod::lemma_div_basics(x as int);
    }
    while z < y
        invariant
            0 < x < i128::MAX,
            is_isqrt(x as int, s),
            y > 0,
            y <= x,
            y >= s,
            z >= s,
            z == (x / y + y) / 2,
        decreases y,
    {
        y = z;
        proof {
            assert(y > 0) by (nonlinear_arith)
                requires y >= s, s >= 0, x >= 1, is_isqrt(x as int, s),
            {
                if s == 0 {
                    assert(1 <= x);
                }
            }
            lemma_sqrt_step_above(x as int, y as int, s);
            vstd::arithmetic::div_mod::lemma_div_pos_is_pos(x as int, y as int);
            vstd::arithmetic::div_mod::lemma_div_is_ordered_by_denominator(x as int, 1, y as int);
            lemma_sum_bound(x as int, y as int);
        }
        z = (x / z + z) / 2;
    }
    proof {
        if y * y > x {
            lemma_sqrt_step_below(x as int, y as int);
        }
        assert(y == s) by (nonlinear_arith)
            requires
                y * y <= x,
                y >= s,
                x < (s + 1) * (s + 1),
                s >= 0,
        ;
        lemma_isqrt(x as int, s);
    }
    y
}

proof fn lemma_sum_bound(x: int, z: int)
    requires
        1 <= z <= x,
    ensures
        x / z + z <= x + 1,
{
    vstd::arithmetic::div_mod::lemma_fundamental_div_mod(x, z);
    let q = x / z;
    let r = x % z;
    assert(q >= 1) by (nonlinear_arith)
        requires x == z * q + r, 0 <= r < z, z <= x,
    ;
    assert(q + z <= x + 1) by (nonlinear_arith)
        requires x == z * q + r, 0 <= r, q >= 1, z >= 1,
    ;
}

proof fn lemma_isqrt_exists(x: int)
    requires
        x >= 0,
    ensures
        exists|s: int| #[trigger] is_isqrt(x, s),
    decreases x,
{
    if x == 0 {
        assert(is_isqrt(0, 0));
    } else {
        lemma_isqrt_exists(x - 1);
        let s = choose|s: int| #[trigger] is_isqrt(x - 1, s);
        if x < (s + 1) * (s + 1) {
            assert(is_isqrt(x, s));
        } else {
            assert(is_isqrt(x, s + 1)) by (nonlinear_arith)
                requires
                    s >= 0,
                    x == (s + 1) * (s + 1),
            ;
        }
    }
}


/// Integer division truncated toward zero (Rust's `/` on integers).
pub open spec fn tdiv(x: int, y: int) -> int {
    let q = crate::math::abs(x) / crate::math::abs(y);
    if (x < 0) != (y < 0) { -q } else { q }
}

/// `x / y` where Rust's division would not trap.
pub open spec fn div_ok(x: int, y: int) -> bool {
    y != 0 && !(x == i128::MIN && y == -1)
}

/// `x / y` on `i128`, `None` where Rust's division traps (a zero divisor or
/// `i128::MIN / -1`).
pub fn checked_div(x: i128, y: i128) -> (r: Option<i128>)
    ensures
        r == (if div_ok(x as int, y as int) { Some(tdiv(x as int, y as int) as i128) } else { None::<i128> }),
        div_ok(x as int, y as int) ==> fits(tdiv(x as int, y as int)),
        r matches Some(v) ==> v == tdiv(x as int, y as int),
{
    if y == 0 || (x == i128::MIN && y == -1) {
        return None;
    }
    if y > 0 {
        return Some(x / y);
    }
    if y == i128::MIN {
        proof {
            if x == i128::MIN {
                vstd::arithmetic::div_mod::lemma_div_basics(crate::math::abs(x as int));
            } else {
                vstd::arithmetic::div_mod::lemma_basic_div(crate::math::abs(x as int), crate::math::abs(y as int));
            }
        }
        return Some(if x == i128::MIN { 1 } else { 0 });
    }
    let q = x / (-y);
    proof {
        assert(-y >= 1);
        if x >= 0 {
            vstd::arithmetic::div_mod::lemma_div_is_ordered_by_denominator(x as int, 1, -y as int);
        } else {
            vstd::arithmetic::div_mod::lemma_div_is_ordered_by_denominator(-(x as int), 1, -y as int);
            if x == i128::MIN {
                assert(-y >= 2);
                vstd::arithmetic::div_mod::lemma_div_is_ordered_by_denominator(-(x as int), 2, -y as int);
            }
        }
    }
    Some(-q)
}

pub open spec fn fits(x: int) -> bool {
    i128::MIN <= x <= i128::MAX
}

pub open spec fn min_int(a: int, b: int) -> int { if a <= b { a } else { b } }

/// LP shares minted for depositing `a` of token_a and `b` of token_b:
/// sqrt(a * b) into an empty pool, otherwise the smaller of the two
/// proportional shares. `Overflow` marks the inputs on which the contract traps.
pub open spec fn shares_for(p: PoolState, a: int, b: int) -> Result<int, Error> {
    if p.total_shares == 0 {
        if !fits(a * b) {
            Err(Error::InvalidAmount)
        } else if a * b == i128::MAX {
            Err(Error::Overflow)
        } else {
            Ok(isqrt(a * b))
        }
    } else if !fits(a * p.total_shares) {
        Err(Error::InvalidAmount)
    } else if !div_ok(a * p.total_shares, p.reserve_a as int) {
        Err(Error::Overflow)
    } else if !fits(b * p.total_shares) {
        Err(Error::InvalidAmount)
    } else if !div_ok(b * p.total_shares, p.reserve_b as int) {
        Err(Error::Overflow)
    } else {
        Ok(min_int(tdiv(a * p.total_shares, p.reserve_a as int), tdiv(b * p.total_shares, p.reserve_b as int)))
    }
}

/// The outcome of `deposit`: the shares minted.
pub open spec fn deposit_spec(pool: Option<PoolState>, cur: int, a: int, b: int) -> Result<int, Error> {
    if a <= 0 || b <= 0 {
        Err(Error::InvalidAmount)
    } else {
        match pool {
            None => Err(Error::NotInitialized),
            Some(p) => match shares_for(p, a, b) {
                Err(e) => Err(e),
                Ok(sh) => if !fits(cur + sh) || !fits(p.reserve_a + a) || !fits(p.reserve_b + b)
                    || !fits(p.total_shares + sh) {
                    Err(Error::Overflow)
                } else {
                    Ok(sh)
                },
            },
        }
    }
}

/// The outcome of `withdraw`: the amounts of token_a and token_b paid out.
pub open spec fn withdraw_spec(pool: Option<PoolState>, cur: int, shares: int) -> Result<(int, int), Error> {
    if shares <= 0 {
        Err(Error::InvalidAmount)
    } else {
        match pool {
            None => Err(Error::NotInitialized),
            Some(p) => if shares > cur {
                Err(Error::InsufficientShares)
            } else if !fits(shares * p.reserve_a) || !div_ok(shares * p.reserve_a, p.total_shares as int)
                || !fits(shares * p.reserve_b) || !div_ok(shares * p.reserve_b, p.total_shares as int) {
                Err(Error::Overflow)
            } else {
                let out_a = tdiv(shares * p.reserve_a, p.total_shares as int);
                let out_b = tdiv(shares * p.reserve_b, p.total_shares as int);
                if !fits(cur - shares) || !fits(p.reserve_a - out_a) || !fits(p.reserve_b - out_b)
                    || !fits(p.total_shares - shares) {
                    Err(Error::Overflow)
                } else {
                    Ok((out_a, out_b))
                }
            },
        }
    }
}

/// The first position at or after `from` of the order with id `id`.
pub open spec fn find_order(s: Seq<Order>, id: u64, from: int) -> Option<int>
    decreases s.len() - from,
{
    if from < 0 || from >= s.len() {
        None
    } else if s[from].id == id {
        Some(from)
    } else {
        find_order(s, id, from + 1)
    }
}

/// The position at which a new bid at `price` is inserted: after every bid
/// priced at least as high.
pub open spec fn bid_slot(s: Seq<Order>, price: int, k: int) -> bool {
    &&& 0 <= k <= s.len()
    &&& forall|j: int| 0 <= j < k ==> s[j].price >= price
    &&& k < s.len() ==> s[k].price < price
}

/// The position at which a new ask at `price` is inserted: after every ask
/// priced at most as high.
pub open spec fn ask_slot(s: Seq<Order>, price: int, k: int) -> bool {
    &&& 0 <= k <= s.len()
    &&& forall|j: int| 0 <= j < k ==> s[j].price <= price
    &&& k < s.len() ==> s[k].price > price
}

/// Insert a bid maintaining descending price order (highest price first).
fn insert_bid(orders: &mut Vec<Order>, order: Order)
    requires
        bids_sorted(old(orders)@),
        order.price > 0 && order.amount > 0 && order.is_bid,
    ensures
        bids_sorted(final(orders)@),
        exists|k: int| bid_slot(old(orders)@, order.price as int, k) && final(orders)@ == old(orders)@.insert(k, order),
{
    let mut i: usize = 0;
    while i < orders.len()
        invariant_except_break
            i <= orders.len(),
            forall|j: int| 0 <= j < i ==> orders@[j].price >= order.price,
        ensures
            i <= orders.len(),
            forall|j: int| 0 <= j < i ==> orders@[j].price >= order.price,
            i < orders.len() ==> orders@[i as int].price < order.price,
        decreases orders.len() - i,
    {
        if orders[i].price < order.price {
            break;
        }
        i += 1;
    }
    let ghost old_s = orders@;
    orders.insert(i, order);
    proof {
        assert(bid_slot(old_s, order.price as int, i as int));
        assert forall|a: int, b: int| 0 <= a < b < orders@.len() implies orders@[a].price >= orders@[b].price by {
            if b < i {
            } else if a < i && b == i {
            } else if a < i {
                assert(orders@[b] == old_s[b - 1]);
            } else if a == i {
                assert(orders@[b] == old_s[b - 1]);
                assert(old_s[i as int].price < order.price);
                assert(old_s[i as int].price >= old_s[b - 1].price);
            } else {
                assert(orders@[a] == old_s[a - 1]);
                assert(orders@[b] == old_s[b - 1]);
            }
        }
        assert forall|a: int| 0 <= a < orders@.len() implies orders@[a].price > 0 && orders@[a].amount > 0 && orders@[a].is_bid by {
            if a > i {
                assert(orders@[a] == old_s[a - 1]);
            }
        }
    }
}

/// Insert an ask maintaining ascending price order (lowest price first).
fn insert_ask(orders: &mut Vec<Order>, order: Order)
    requires
        asks_sorted(old(orders)@),
        order.price > 0 && order.amount > 0 && !order.is_bid,
    ensures
        asks_sorted(final(orders)@),
        exists|k: int| ask_slot(old(orders)@, order.price as int, k) && final(orders)@ == old(orders)@.insert(k, order),
{
    let mut i: usize = 0;
    while i < orders.len()
        invariant_except_break
            i <= orders.len(),
            forall|j: int| 0 <= j < i ==> orders@[j].price <= order.price,
        ensures
            i <= orders.len(),
            forall|j: int| 0 <= j < i ==> orders@[j].price <= order.price,
            i < orders.len() ==> orders@[i as int].price > order.price,
        decreases orders.len() - i,
    {
        if orders[i].price > order.price {
            break;
        }
        i += 1;
    }
    let ghost old_s = orders@;
    orders.insert(i, order);
    proof {
        assert(ask_slot(old_s, order.price as int, i as int));
        assert forall|a: int, b: int| 0 <= a < b < orders@.len() implies orders@[a].price <= orders@[b].price by {
            if b < i {
            } else if a < i && b == i {
            } else if a < i {
                assert(orders@[b] == old_s[b - 1]);
            } else if a == i {
                assert(orders@[b] == old_s[b - 1]);
                assert(old_s[i as int].price > order.price);
                assert(old_s[i as int].price <= old_s[b - 1].price);
            } else {
                assert(orders@[a] == old_s[a - 1]);
                assert(orders@[b] == old_s[b - 1]);
            }
        }
        assert forall|a: int| 0 <= a < orders@.len() implies orders@[a].price > 0 && orders@[a].amount > 0 && !orders@[a].is_bid by {
            if a > i {
                assert(orders@[a] == old_s[a - 1]);
            }
        }
    }
}

proof fn lemma_find_order(s: Seq<Order>, id: u64, from: int)
    ensures
        find_order(s, id, from) matches Some(k) ==> from <= k < s.len() && s[k].id == id,
    decreases s.len() - from,
{
    if 0 <= from < s.len() && s[from].id != id {
        lemma_find_order(s, id, from + 1);
    }
}

/// Position of the first order with id `id`.
fn find_order_index(orders: &Vec<Order>, id: u64) -> (r: Option<usize>)
    ensures
        r matches Some(i) ==> find_order(orders@, id, 0) == Some(i as int) && i < orders.len(),
        r is None ==> find_order(orders@, id, 0) is None,
{
    proof {
        lemma_find_order(orders@, id, 0);
    }
    let mut i: usize = 0;
    while i < orders.len()
        invariant
            i <= orders.len(),
            find_order(orders@, id, 0) == find_order(orders@, id, i as int),
        decreases orders.len() - i,
    {
        if orders[i].id == id {
            return Some(i);
        }
        i += 1;
    }
    None
}

proof fn lemma_remove_keeps_bids(s: Seq<Order>, i: int)
    requires
        bids_sorted(s),
        0 <= i < s.len(),
    ensures
        bids_sorted(s.remove(i)),
{
    let t = s.remove(i);
    assert forall|a: int, b: int| 0 <= a < b < t.len() implies t[a].price >= t[b].price by {
        let a2 = if a < i { a } else { a + 1 };
        let b2 = if b < i { b } else { b + 1 };
        assert(t[a] == s[a2] && t[b] == s[b2]);
    }
    assert forall|a: int| 0 <= a < t.len() implies t[a].price > 0 && t[a].amount > 0 && t[a].is_bid by {
        let a2 = if a < i { a } else { a + 1 };
        assert(t[a] == s[a2]);
    }
}

proof fn lemma_remove_keeps_asks(s: Seq<Order>, i: int)
    requires
        asks_sorted(s),
        0 <= i < s.len(),
    ensures
        asks_sorted(s.remove(i)),
{
    let t = s.remove(i);
    assert forall|a: int, b: int| 0 <= a < b < t.len() implies t[a].price <= t[b].price by {
        let a2 = if a < i { a } else { a + 1 };
        let b2 = if b < i { b } else { b + 1 };
        assert(t[a] == s[a2] && t[b] == s[b2]);
    }
    assert forall|a: int| 0 <= a < t.len() implies t[a].price > 0 && t[a].amount > 0 && !t[a].is_bid by {
        let a2 = if a < i { a } else { a + 1 };
        assert(t[a] == s[a2]);
    }
}

/// The outcome of `place_order`: the id assigned and the escrowed amount.
pub open spec fn place_spec(pool: Option<PoolState>, is_bid: bool, price: int, amount: int) -> Result<(u64, int), Error> {
    if amount <= 0 {
        Err(Error::InvalidAmount)
    } else if price <= 0 {
        Err(Error::InvalidPrice)
    } else {
        match pool {
            None => Err(Error::NotInitialized),
            Some(p) => if is_bid && !fits(amount * price) {
                Err(Error::InvalidAmount)
            } else if p.next_order_id == u64::MAX {
                Err(Error::Overflow)
            } else {
                Ok((p.next_order_id, if is_bid { (amount * price) / (PRICE_SCALE as int) } else { amount }))
            },
        }
    }
}

/// The state threaded through the book phase of a swap:
/// (book, position, output still wanted, input owed so far, output filled
/// from the book, orders matched, token movements so far).
pub type PhaseState = (Seq<Order>, int, int, int, int, int, Seq<Transfer>);

/// Whether the price band stops matching at an order priced `price`
/// (`worse` says the price is on the wrong side of the reference).
pub open spec fn band_stops(reference: Option<int>, price: int, worse: bool, max_dev: int) -> Result<bool, Error> {
    match reference {
        Some(r) => if worse {
            match deviation_spec(price, r) {
                Ok(d) => Ok(d > max_dev),
                Err(e) => Err(e),
            }
        } else {
            Ok(false)
        },
        None => Ok(false),
    }
}

/// The book phase of a swap that buys token_a: asks are filled in book order
/// (best first) until the output is covered, an ask lies outside the price
/// band, or the depth budget is spent. The taker pays each maker the ask
/// price plus the maker fee; the contract releases the escrowed token_a.
pub open spec fn ask_phase(
    st: PhaseState,
    reference: Option<int>,
    max_dev: int,
    budget: int,
    fee: int,
    token_a: Account,
    token_b: Account,
    this: Account,
    taker: Account,
) -> Result<PhaseState, Error>
    decreases st.0.len() - st.1,
{
    let (book, i, rem, tin, filled, matched, tr) = st;
    if i < 0 || i >= book.len() || rem <= 0 {
        Ok(st)
    } else {
        let o = book[i];
        match band_stops(reference, o.price as int, o.price > reference.unwrap_or(0), max_dev) {
            Err(e) => Err(e),
            Ok(stop) => if stop || matched >= budget {
                Ok(st)
            } else {
                let fill = min_int(rem, o.amount as int);
                if !fits(fill * o.price) {
                    Err(Error::InvalidAmount)
                } else {
                    let base = (fill * o.price) / (PRICE_SCALE as int);
                    if !fits(base * fee) {
                        Err(Error::InvalidAmount)
                    } else {
                        let cost = base + (base * fee) / (BPS_DENOMINATOR as int);
                        if !fits(cost) || !fits(tin + cost) {
                            Err(Error::Overflow)
                        } else {
                            let left = o.amount - fill;
                            let book2 = if left == 0 {
                                book.remove(i)
                            } else {
                                book.update(i, Order { amount: left as i128, ..o })
                            };
                            let i2 = if left == 0 { i } else { i + 1 };
                            let tr2 = tr.push(Transfer { token: token_b, from: taker, to: o.maker, amount: cost as i128 })
                                .push(Transfer { token: token_a, from: this, to: taker, amount: fill as i128 });
                            ask_phase((book2, i2, rem - fill, tin + cost, filled + fill, matched + 1, tr2),
                                reference, max_dev, budget, fee, token_a, token_b, this, taker)
                        }
                    }
                }
            },
        }
    }
}

/// The book phase of a swap that buys token_b: bids are filled in book order
/// (best first). The taker sells token_a to each maker at the bid price and
/// pays the maker fee on top, in token_a; the contract releases the escrowed
/// token_b.
pub open spec fn bid_phase(
    st: PhaseState,
    reference: Option<int>,
    max_dev: int,
    budget: int,
    fee: int,
    token_a: Account,
    token_b: Account,
    this: Account,
    taker: Account,
) -> Result<PhaseState, Error>
    decreases st.0.len() - st.1,
{
    let (book, i, rem, tin, filled, matched, tr) = st;
    if i < 0 || i >= book.len() || rem <= 0 {
        Ok(st)
    } else {
        let o = book[i];
        match band_stops(reference, o.price as int, o.price < reference.unwrap_or(0), max_dev) {
            Err(e) => Err(e),
            Ok(stop) => if stop || matched >= budget {
                Ok(st)
            } else if !fits(o.amount * o.price) {
                Err(Error::InvalidAmount)
            } else {
                let fill_b = min_int(rem, (o.amount * o.price) / (PRICE_SCALE as int));
                if !fits(fill_b * PRICE_SCALE) {
                    Err(Error::InvalidAmount)
                } else {
                    let fill_a = (fill_b * PRICE_SCALE) / (o.price as int);
                    if !fits(fill_a * fee) {
                        Err(Error::InvalidAmount)
                    } else {
                        let cost = fill_a + (fill_a * fee) / (BPS_DENOMINATOR as int);
                        if !fits(cost) || !fits(tin + cost) {
                            Err(Error::Overflow)
                        } else {
                            let left = o.amount - fill_a;
                            let book2 = if left == 0 {
                                book.remove(i)
                            } else {
                                book.update(i, Order { amount: left as i128, ..o })
                            };
                            let i2 = if left == 0 { i } else { i + 1 };
                            let tr2 = tr.push(Transfer { token: token_a, from: taker, to: o.maker, amount: cost as i128 })
                                .push(Transfer { token: token_b, from: this, to: taker, amount: fill_b as i128 });
                            bid_phase((book2, i2, rem - fill_b, tin + cost, filled + fill_b, matched + 1, tr2),
                                reference, max_dev, budget, fee, token_a, token_b, this, taker)
                        }
                    }
                }
            },
        }
    }
}

/// The AMM leg of a swap for `rem` of the output token: the input owed
/// (constant product with the LP fee kept in the pool, rounded up by one)
/// and the pool after it.
pub open spec fn amm_leg(p: PoolState, buy_a: bool, rem: int) -> Result<(int, PoolState), Error> {
    let rin: int = if buy_a { p.reserve_b as int } else { p.reserve_a as int };
    let rout: int = if buy_a { p.reserve_a as int } else { p.reserve_b as int };
    if rem >= rout {
        Err(Error::InsufficientLiquidity)
    } else if !fits(rin * rem) || !fits(rin * rem * BPS_DENOMINATOR) {
        Err(Error::InsufficientLiquidity)
    } else if !fits((rout - rem) * (BPS_DENOMINATOR - p.lp_fee_bps)) {
        Err(Error::InsufficientLiquidity)
    } else {
        let num = rin * rem * BPS_DENOMINATOR;
        let den = (rout - rem) * (BPS_DENOMINATOR - p.lp_fee_bps);
        if !div_ok(num, den) || !fits(tdiv(num, den) + 1) || !fits(rin + tdiv(num, den) + 1) {
            Err(Error::Overflow)
        } else {
            let amm_in = tdiv(num, den) + 1;
            Ok((amm_in, if buy_a {
                PoolState { reserve_a: (rout - rem) as i128, reserve_b: (rin + amm_in) as i128, ..p }
            } else {
                PoolState { reserve_a: (rin + amm_in) as i128, reserve_b: (rout - rem) as i128, ..p }
            }))
        }
    }
}

/// The pool-deviation guard on the pool after the AMM leg.
pub open spec fn pool_guard(reference: Option<int>, p2: PoolState, max_dev: int) -> Result<(), Error> {
    match reference {
        None => Ok(()),
        Some(r) => match spot_price_spec(p2.reserve_a as int, p2.reserve_b as int) {
            None => Err(Error::InsufficientLiquidity),
            Some(post) => match deviation_spec(post, r) {
                Err(e) => Err(e),
                Ok(d) => if d > max_dev { Err(Error::PriceDeviationExceeded) } else { Ok(()) },
            },
        },
    }
}

/// What a successful swap leaves behind.
pub type SwapEffect = (SwapResult, PoolState, Seq<Order>, Option<MatchDepth>, Seq<Transfer>);

/// The rest of a swap once the book phase has run: the AMM leg for what is
/// left, the guards, the slippage limit, and the settlement of the AMM leg.
pub open spec fn swap_finish(
    p: PoolState,
    depth: Option<MatchDepth>,
    ledger: u32,
    this: Account,
    taker: Account,
    buy_a: bool,
    out: int,
    in_max: int,
    reference: Option<int>,
    used: int,
    phase: Result<PhaseState, Error>,
) -> Result<SwapEffect, Error> {
    match phase {
        Err(e) => Err(e),
        Ok(st) => {
            let (book, _i, rem, tin, filled, matched, tr) = st;
            let depth2 = if matched > 0 {
                Some(MatchDepth { ledger, consumed: (used + matched) as u32 })
            } else {
                depth
            };
            let leg: Result<(int, PoolState), Error> = if rem > 0 { amm_leg(p, buy_a, rem) } else { Ok((0, p)) };
            match leg {
                Err(e) => Err(e),
                Ok((amm_in, p2)) => if !fits(tin + amm_in) {
                    Err(Error::Overflow)
                } else {
                    let guard: Result<(), Error> = if rem > 0 {
                        pool_guard(reference, p2, p.guards.max_price_deviation_bps as int)
                    } else {
                        Ok(())
                    };
                    match guard {
                        Err(e) => Err(e),
                        Ok(_) => if tin + amm_in > in_max {
                            Err(Error::SlippageExceeded)
                        } else {
                            let token_in = if buy_a { p.token_b } else { p.token_a };
                            let token_out = if buy_a { p.token_a } else { p.token_b };
                            let tr2 = if rem > 0 {
                                tr.push(Transfer { token: token_in, from: taker, to: this, amount: amm_in as i128 })
                                    .push(Transfer { token: token_out, from: this, to: taker, amount: rem as i128 })
                            } else {
                                tr
                            };
                            Ok((
                                SwapResult {
                                    amount_in: (tin + amm_in) as i128,
                                    amount_out: out as i128,
                                    lob_filled: filled as i128,
                                    amm_filled: if rem > 0 { rem as i128 } else { 0 },
                                },
                                p2,
                                book,
                                depth2,
                                tr2,
                            ))
                        },
                    }
                },
            }
        },
    }
}

/// The depth budget left in `ledger`.
pub open spec fn budget_spec(p: PoolState, used: int) -> int {
    if p.guards.max_match_depth >= used { p.guards.max_match_depth - used } else { 0 }
}

/// The outcome of a swap: fill from the book on the side the taker buys
/// from, then the AMM, under the guards. On success: the result, the pool,
/// the new book of that side, the depth counter, and the token movements.
pub open spec fn swap_spec(
    pool: Option<PoolState>,
    bids: Seq<Order>,
    asks: Seq<Order>,
    depth: Option<MatchDepth>,
    ledger: u32,
    this: Account,
    taker: Account,
    buy_a: bool,
    out: int,
    in_max: int,
) -> Result<SwapEffect, Error> {
    if out <= 0 {
        Err(Error::InvalidAmount)
    } else {
        match pool {
            None => Err(Error::NotInitialized),
            Some(p) => {
                let reference = spot_price_spec(p.reserve_a as int, p.reserve_b as int);
                let used = depth_used_spec(depth, ledger) as int;
                let budget = budget_spec(p, used);
                let start: PhaseState = (if buy_a { asks } else { bids }, 0, out, 0, 0, 0, Seq::empty());
                let phase = if buy_a {
                    ask_phase(start, reference, p.guards.max_price_deviation_bps as int, budget,
                        p.maker_fee_bps as int, p.token_a, p.token_b, this, taker)
                } else {
                    bid_phase(start, reference, p.guards.max_price_deviation_bps as int, budget,
                        p.maker_fee_bps as int, p.token_a, p.token_b, this, taker)
                };
                swap_finish(p, depth, ledger, this, taker, buy_a, out, in_max, reference, used, phase)
            },
        }
    }
}

pub open spec fn ref_int(reference: Option<i128>) -> Option<int> {
    match reference {
        Some(v) => Some(v as int),
        None => None,
    }
}

/// The book phase against the asks (the taker buys token_a).
fn run_ask_phase(
    book: &mut Vec<Order>,
    out: i128,
    reference: Option<i128>,
    max_dev: i128,
    budget: u32,
    fee: i128,
    token_a: Account,
    token_b: Account,
    this: Account,
    taker: Account,
    tr: &mut Vec<Transfer>,
) -> (r: Result<(i128, i128, i128, u32), Error>)
    requires
        asks_sorted(old(book)@),
        out > 0,
        fee >= 0,
        reference matches Some(v) ==> v > 0,
        old(tr)@.len() == 0,
    ensures
        match ask_phase((old(book)@, 0, out as int, 0, 0, 0, Seq::empty()), ref_int(reference), max_dev as int,
            budget as int, fee as int, token_a, token_b, this, taker) {
            Err(e) => r == Err::<(i128, i128, i128, u32), Error>(e),
            Ok(st) => r matches Ok((rem, tin, filled, matched)) && st.0 == final(book)@ && st.2 == rem
                && st.3 == tin && st.4 == filled && st.5 == matched && st.6 == final(tr)@,
        },
        r matches Ok((rem, tin, filled, matched)) ==> asks_sorted(final(book)@) && matched <= budget
            && rem + filled == out && 0 <= filled && tin >= 0,
{
    let ghost start: PhaseState = (book@, 0, out as int, 0, 0, 0, Seq::empty());
    let ghost rf = ref_int(reference);
    let ghost total = ask_phase(start, rf, max_dev as int, budget as int, fee as int, token_a, token_b, this, taker);
    let mut i: usize = 0;
    let mut remaining = out;
    let mut total_in: i128 = 0;
    let mut lob_filled: i128 = 0;
    let mut matched: u32 = 0;
    assert(tr@ =~= Seq::<Transfer>::empty());
    while i < book.len() && remaining > 0
        invariant_except_break
            asks_sorted(book@),
            i <= book.len(),
            matched <= budget,
            remaining + lob_filled == out,
            0 <= lob_filled,
            total_in >= 0,
            fee >= 0,
            rf == ref_int(reference),
            reference matches Some(v) ==> v > 0,
            total == ask_phase(start, rf, max_dev as int, budget as int, fee as int, token_a, token_b, this, taker),
            start == (old(book)@, 0int, out as int, 0int, 0int, 0int, Seq::<Transfer>::empty()),
            total == ask_phase((book@, i as int, remaining as int, total_in as int, lob_filled as int,
                matched as int, tr@), rf, max_dev as int, budget as int, fee as int, token_a, token_b, this, taker),
        ensures
            asks_sorted(book@),
            matched <= budget,
            remaining + lob_filled == out,
            0 <= lob_filled,
            total_in >= 0,
            total == Ok::<PhaseState, Error>((book@, i as int, remaining as int, total_in as int,
                lob_filled as int, matched as int, tr@)),
        decreases book.len() - i,
    {
        let order = book[i];
        // Price band: asks are sorted ascending, so the first order priced
        // above tolerance means every later one is worse.
        match reference {
            Some(rv) => {
                if order.price > rv {
                    let dv = deviation_bps(order.price, rv)?;
                    if dv > max_dev {
                        break;
                    }
                }
            },
            None => {},
        }
        // Execution depth: this ledger's budget is spent.
        if matched >= budget {
            break;
        }
        let fill_a = if remaining < order.amount { remaining } else { order.amount };
        let base_cost = match fill_a.checked_mul(order.price) {
            Some(v) => v / PRICE_SCALE,
            None => return Err(Error::InvalidAmount),
        };
        let maker_fee = match base_cost.checked_mul(fee) {
            Some(v) => v / BPS_DENOMINATOR,
            None => return Err(Error::InvalidAmount),
        };
        let taker_cost = match base_cost.checked_add(maker_fee) {
            Some(v) => v,
            None => return Err(Error::Overflow),
        };
        total_in = match total_in.checked_add(taker_cost) {
            Some(v) => v,
            None => return Err(Error::Overflow),
        };
        remaining = remaining - fill_a;
        lob_filled = lob_filled + fill_a;
        matched = matched + 1;
        tr.push(Transfer { token: token_b, from: taker, to: order.maker, amount: taker_cost });
        tr.push(Transfer { token: token_a, from: this, to: taker, amount: fill_a });
        let left = order.amount - fill_a;
        if left == 0 {
            proof {
                lemma_remove_keeps_asks(book@, i as int);
            }
            book.remove(i);
        } else {
            let ghost b0 = book@;
            book.set(i, Order { amount: left, ..order });
            proof {
                assert forall|a: int, b: int| 0 <= a < b < book@.len() implies book@[a].price <= book@[b].price by {
                    assert(book@[a].price == b0[a].price && book@[b].price == b0[b].price);
                }
            }
            i = i + 1;
        }
    }
    Ok((remaining, total_in, lob_filled, matched))
}

/// The book phase against the bids (the taker buys token_b).
fn run_bid_phase(
    book: &mut Vec<Order>,
    out: i128,
    reference: Option<i128>,
    max_dev: i128,
    budget: u32,
    fee: i128,
    token_a: Account,
    token_b: Account,
    this: Account,
    taker: Account,
    tr: &mut Vec<Transfer>,
) -> (r: Result<(i128, i128, i128, u32), Error>)
    requires
        bids_sorted(old(book)@),
        out > 0,
        fee >= 0,
        reference matches Some(v) ==> v > 0,
        old(tr)@.len() == 0,
    ensures
        match bid_phase((old(book)@, 0, out as int, 0, 0, 0, Seq::empty()), ref_int(reference), max_dev as int,
            budget as int, fee as int, token_a, token_b, this, taker) {
            Err(e) => r == Err::<(i128, i128, i128, u32), Error>(e),
            Ok(st) => r matches Ok((rem, tin, filled, matched)) && st.0 == final(book)@ && st.2 == rem
                && st.3 == tin && st.4 == filled && st.5 == matched && st.6 == final(tr)@,
        },
        r matches Ok((rem, tin, filled, matched)) ==> bids_sorted(final(book)@) && matched <= budget
            && rem + filled == out && 0 <= filled && tin >= 0,
{
    let ghost start: PhaseState = (book@, 0, out as int, 0, 0, 0, Seq::empty());
    let ghost rf = ref_int(reference);
    let ghost total = bid_phase(start, rf, max_dev as int, budget as int, fee as int, token_a, token_b, this, taker);
    let mut i: usize = 0;
    let mut remaining = out;
    let mut total_in: i128 = 0;
    let mut lob_filled: i128 = 0;
    let mut matched: u32 = 0;
    assert(tr@ =~= Seq::<Transfer>::empty());
    while i < book.len() && remaining > 0
        invariant_except_break
            bids_sorted(book@),
            i <= book.len(),
            matched <= budget,
            remaining + lob_filled == out,
            0 <= lob_filled,
            remaining >= 0,
            total_in >= 0,
            fee >= 0,
            rf == ref_int(reference),
            reference matches Some(v) ==> v > 0,
            total == bid_phase(start, rf, max_dev as int, budget as int, fee as int, token_a, token_b, this, taker),
            start == (old(book)@, 0int, out as int, 0int, 0int, 0int, Seq::<Transfer>::empty()),
            total == bid_phase((book@, i as int, remaining as int, total_in as int, lob_filled as int,
                matched as int, tr@), rf, max_dev as int, budget as int, fee as int, token_a, token_b, this, taker),
        ensures
            bids_sorted(book@),
            matched <= budget,
            remaining + lob_filled == out,
            0 <= lob_filled,
            total_in >= 0,
            total == Ok::<PhaseState, Error>((book@, i as int, remaining as int, total_in as int,
                lob_filled as int, matched as int, tr@)),
        decreases book.len() - i,
    {
        let order = book[i];
        // Price band: bids are sorted descending, so the first order priced
        // below tolerance means every later one is worse.
        match reference {
            Some(rv) => {
                if order.price < rv {
                    let dv = deviation_bps(order.price, rv)?;
                    if dv > max_dev {
                        break;
                    }
                }
            },
            None => {},
        }
        // Execution depth: this ledger's budget is spent.
        if matched >= budget {
            break;
        }
        let cap = match order.amount.checked_mul(order.price) {
            Some(v) => v / PRICE_SCALE,
            None => return Err(Error::InvalidAmount),
        };
        let fill_b = if remaining < cap { remaining } else { cap };
        let fill_a = match fill_b.checked_mul(PRICE_SCALE) {
            Some(v) => v / order.price,
            None => return Err(Error::InvalidAmount),
        };
        let maker_fee = match fill_a.checked_mul(fee) {
            Some(v) => v / BPS_DENOMINATOR,
            None => return Err(Error::InvalidAmount),
        };
        let taker_cost = match fill_a.checked_add(maker_fee) {
            Some(v) => v,
            None => return Err(Error::Overflow),
        };
        total_in = match total_in.checked_add(taker_cost) {
            Some(v) => v,
            None => return Err(Error::Overflow),
        };
        proof {
            // fill_a <= order.amount: fill_b <= amount * price / SCALE.
            assert(fill_a <= order.amount) by (nonlinear_arith)
                requires
                    fill_b <= cap,
                    cap == (order.amount * order.price) / (PRICE_SCALE as int),
                    fill_a == (fill_b * PRICE_SCALE) / (order.price as int),
                    order.price > 0,
                    order.amount > 0,
                    fill_b >= 0,
            {
                vstd::arithmetic::div_mod::lemma_fundamental_div_mod(order.amount * order.price, PRICE_SCALE as int);
                vstd::arithmetic::div_mod::lemma_div_is_ordered(fill_b * PRICE_SCALE, order.amount * order.price, order.price as int);
                vstd::arithmetic::div_mod::lemma_div_by_multiple(order.amount as int, order.price as int);
            }
        }
        remaining = remaining - fill_b;
        lob_filled = lob_filled + fill_b;
        matched = matched + 1;
        tr.push(Transfer { token: token_a, from: taker, to: order.maker, amount: taker_cost });
        tr.push(Transfer { token: token_b, from: this, to: taker, amount: fill_b });
        let left = order.amount - fill_a;
        if left == 0 {
            proof {
                lemma_remove_keeps_bids(book@, i as int);
            }
            book.remove(i);
        } else {
            let ghost b0 = book@;
            book.set(i, Order { amount: left, ..order });
            proof {
                assert forall|a: int, b: int| 0 <= a < b < book@.len() implies book@[a].price >= book@[b].price by {
                    assert(book@[a].price == b0[a].price && book@[b].price == b0[b].price);
                }
            }
            i = i + 1;
        }
    }
    Ok((remaining, total_in, lob_filled, matched))
}

/// The AMM leg: input owed and the pool after it.
fn run_amm_leg(pool: &PoolState, buy_a: bool, rem: i128) -> (r: Result<(i128, PoolState), Error>)
    requires
        rem > 0,
        pool.lp_fee_bps >= 0,
    ensures
        r == (match amm_leg(*pool, buy_a, rem as int) {
            Ok((a, p2)) => Ok((a as i128, p2)),
            Err(e) => Err(e),
        }),
{
    let (reserve_in, reserve_out) = if buy_a {
        (pool.reserve_b, pool.reserve_a)
    } else {
        (pool.reserve_a, pool.reserve_b)
    };
    if rem >= reserve_out {
        return Err(Error::InsufficientLiquidity);
    }
    let fee_scale = BPS_DENOMINATOR - pool.lp_fee_bps;
    let n1 = match reserve_in.checked_mul(rem) {
        Some(v) => v,
        None => return Err(Error::InsufficientLiquidity),
    };
    let numerator = match n1.checked_mul(BPS_DENOMINATOR) {
        Some(v) => v,
        None => return Err(Error::InsufficientLiquidity),
    };
    let denominator = match (reserve_out - rem).checked_mul(fee_scale) {
        Some(v) => v,
        None => return Err(Error::InsufficientLiquidity),
    };
    let q = match checked_div(numerator, denominator) {
        Some(v) => v,
        None => return Err(Error::Overflow),
    };
    let amm_in = match q.checked_add(1) {
        Some(v) => v,
        None => return Err(Error::Overflow),
    };
    let new_in = match reserve_in.checked_add(amm_in) {
        Some(v) => v,
        None => return Err(Error::Overflow),
    };
    let mut p2 = *pool;
    if buy_a {
        p2.reserve_a = reserve_out - rem;
        p2.reserve_b = new_in;
    } else {
        p2.reserve_a = new_in;
        p2.reserve_b = reserve_out - rem;
    }
    Ok((amm_in, p2))
}

/// The contract's stored state.
pub struct HybridAmmLob {
    pub pool: Option<PoolState>,
    /// Bid orders: buy A with B, descending price (best bid first).
    pub bids: Vec<Order>,
    /// Ask orders: sell A for B, ascending price (best ask first).
    pub asks: Vec<Order>,
    /// LP share balance per user.
    pub lp_balances: Vec<Entry>,
    /// Execution depth consumed during the ledger it names.
    pub match_depth: Option<MatchDepth>,
}

/// Asks are in ascending price order, each live order is a positive amount
/// at a positive price.
pub open spec fn asks_sorted(s: Seq<Order>) -> bool {
    &&& forall|i: int, j: int| 0 <= i < j < s.len() ==> s[i].price <= s[j].price
    &&& forall|i: int| 0 <= i < s.len() ==> s[i].price > 0 && s[i].amount > 0 && !s[i].is_bid
}

/// Bids are in descending price order, each live order is a positive amount
/// at a positive price.
pub open spec fn bids_sorted(s: Seq<Order>) -> bool {
    &&& forall|i: int, j: int| 0 <= i < j < s.len() ==> s[i].price >= s[j].price
    &&& forall|i: int| 0 <= i < s.len() ==> s[i].price > 0 && s[i].amount > 0 && s[i].is_bid
}

pub open spec fn balances_wf(s: Seq<Entry>) -> bool {
    unique_accounts(s)
}

/// No account holds a negative balance.
pub open spec fn balances_nonneg(s: Seq<Entry>) -> bool {
    forall|a: Account| 0 <= #[trigger] amount_in(s, a)
}

/// A deposit into a pool with no negative reserve or supply mints no
/// negative share count.
proof fn lemma_minted_nonneg(p: PoolState, amount_a: int, amount_b: int)
    requires
        p.reserve_a >= 0,
        p.reserve_b >= 0,
        p.total_shares >= 0,
        amount_a > 0,
        amount_b > 0,
    ensures
        shares_for(p, amount_a, amount_b) matches Ok(sh) ==> sh >= 0,
{
    if p.total_shares == 0 {
        if fits(amount_a * amount_b) && amount_a * amount_b != i128::MAX {
            assert(amount_a * amount_b >= 0) by (nonlinear_arith)
                requires amount_a > 0, amount_b > 0;
            lemma_isqrt_exists(amount_a * amount_b);
        }
    } else {
        assert(amount_a * p.total_shares >= 0) by (nonlinear_arith)
            requires amount_a > 0, p.total_shares >= 0;
        assert(amount_b * p.total_shares >= 0) by (nonlinear_arith)
            requires amount_b > 0, p.total_shares >= 0;
        if p.reserve_a > 0 {
            assert((amount_a * p.total_shares) / (p.reserve_a as int) >= 0) by (nonlinear_arith)
                requires amount_a * p.total_shares >= 0, p.reserve_a > 0;
        }
        if p.reserve_b > 0 {
            assert((amount_b * p.total_shares) / (p.reserve_b as int) >= 0) by (nonlinear_arith)
                requires amount_b * p.total_shares >= 0, p.reserve_b > 0;
        }
    }
}

/// A proportional share of a reserve is at most the reserve.
proof fn lemma_withdrawn_within_reserve(shares: int, reserve: int, total: int)
    requires
        0 < shares <= total,
        reserve >= 0,
    ensures
        0 <= tdiv(shares * reserve, total) <= reserve,
{
    assert(0 <= shares * reserve <= total * reserve) by (nonlinear_arith)
        requires 0 < shares <= total, reserve >= 0;
    assert(tdiv(shares * reserve, total) == (shares * reserve) / total);
    assert((shares * reserve) / total <= (total * reserve) / total) by (nonlinear_arith)
        requires 0 <= shares * reserve <= total * reserve, total > 0;
    assert((total * reserve) / total == reserve) by (nonlinear_arith)
        requires total > 0;
    assert(0 <= (shares * reserve) / total) by (nonlinear_arith)
        requires shares * reserve >= 0, total > 0;
}

/// With no negative balance, each account holds at most the total.
proof fn lemma_share_within_total(s: Seq<Entry>, a: Account)
    requires
        balances_wf(s),
        balances_nonneg(s),
    ensures
        0 <= amount_in(s, a) <= sum_amounts(s),
    decreases s.len(),
{
    if s.len() > 0 {
        let t = s.drop_last();
        let e = s.last();
        assert forall|i: int| 0 <= i < t.len() implies t[i].account != e.account by {
            assert(s[i].account != s[s.len() - 1].account);
        }
        lemma_amount_absent(t, e.account);
        assert(unique_accounts(t)) by {
            assert forall|i: int, j: int| 0 <= i < j < t.len() implies t[i].account != t[j].account by {
                assert(s[i].account != s[j].account);
            }
        }
        assert forall|b: Account| 0 <= #[trigger] amount_in(t, b) by {
            if b != e.account {
                assert(amount_in(s, b) == amount_in(t, b));
            }
        }
        assert(amount_in(s, e.account) == e.amount);
        lemma_share_within_total(t, a);
        lemma_share_within_total(t, e.account);
    }
}

/// The depth already consumed during `ledger` (a counter from an earlier
/// ledger reads as zero).
pub open spec fn depth_used_spec(d: Option<MatchDepth>, ledger: u32) -> u32 {
    match d {
        Some(m) => if m.ledger == ledger { m.consumed } else { 0 },
        None => 0,
    }
}

/// What an ordered insertion does: the new order goes after every order
/// that is at least as good, before the first worse one.
pub open spec fn inserted(s: Seq<Order>, k: int, o: Order) -> Seq<Order> {
    s.subrange(0, k).push(o) + s.subrange(k, s.len() as int)
}

impl HybridAmmLob {
    /// The invariant every stored state keeps.
    pub open spec fn wf(&self) -> bool {
        &&& asks_sorted(self.asks@)
        &&& bids_sorted(self.bids@)
        &&& balances_wf(self.lp_balances@)
        &&& match self.pool {
            Some(p) => {
                &&& p.total_shares == sum_amounts(self.lp_balances@)
                &&& p.lp_fee_bps < BPS_DENOMINATOR ==> {
                    &&& p.reserve_a >= 0
                    &&& p.reserve_b >= 0
                    &&& balances_nonneg(self.lp_balances@)
                }
                &&& p.lp_fee_bps >= 0
                &&& p.maker_fee_bps >= 0
                &&& guards_valid(p.guards)
            },
            None => {
                &&& self.lp_balances@.len() == 0
                &&& self.asks@.len() == 0
                &&& self.bids@.len() == 0
            },
        }
    }

    /// A contract that has not been initialized.
    pub fn new() -> (r: HybridAmmLob)
        ensures
            r.wf(),
            r.pool is None,
            r.match_depth is None,
            r.bids@.len() == 0,
            r.asks@.len() == 0,
            r.lp_balances@.len() == 0,
    {
        HybridAmmLob {
            pool: None,
            bids: Vec::new(),
            asks: Vec::new(),
            lp_balances: Vec::new(),
            match_depth: None,
        }
    }

    pub fn initialize(
        &mut self,
        admin: Account,
        token_a: Account,
        token_b: Account,
        lp_fee_bps: i128,
        maker_fee_bps: i128,
        guards: Guards,
    ) -> (r: Result<(), Error>)
        requires
            old(self).wf(),
        ensures
            final(self).wf(),
            r == (if old(self).pool is Some {
                Err(Error::AlreadyInitialized)
            } else if lp_fee_bps < 0 || maker_fee_bps < 0 {
                Err(Error::InvalidAmount)
            } else if !guards_valid(guards) {
                Err(Error::InvalidConfig)
            } else {
                Ok(())
            }),
            r is Ok ==> final(self).pool == Some(PoolState {
                token_a,
                token_b,
                reserve_a: 0,
                reserve_b: 0,
                total_shares: 0,
                lp_fee_bps,
                maker_fee_bps,
                guards,
                admin,
                next_order_id: 1,
            }),
            r is Ok ==> final(self).bids@ == old(self).bids@ && final(self).asks@ == old(self).asks@
                && final(self).lp_balances@ == old(self).lp_balances@
                && final(self).match_depth == old(self).match_depth,
            r is Err ==> *final(self) == *old(self),
    {
        if self.pool.is_some() {
            return Err(Error::AlreadyInitialized);
        }
        if lp_fee_bps < 0 || maker_fee_bps < 0 {
            return Err(Error::InvalidAmount);
        }
        validate_guards(&guards)?;
        self.pool = Some(PoolState {
            token_a,
            token_b,
            reserve_a: 0,
            reserve_b: 0,
            total_shares: 0,
            lp_fee_bps,
            maker_fee_bps,
            guards,
            admin,
            next_order_id: 1,
        });
        Ok(())
    }

    /// Update the matching-engine safeguards. Admin only (the admin's
    /// authorization is checked by the host).
    pub fn set_guards(&mut self, guards: Guards) -> (r: Result<(), Error>)
        requires
            old(self).wf(),
        ensures
            final(self).wf(),
            r == (if old(self).pool is None {
                Err(Error::NotInitialized)
            } else if !guards_valid(guards) {
                Err(Error::InvalidConfig)
            } else {
                Ok(())
            }),
            r is Ok ==> final(self).pool == Some(PoolState { guards, ..old(self).pool.unwrap() }),
            r is Ok ==> final(self).bids@ == old(self).bids@ && final(self).asks@ == old(self).asks@
                && final(self).lp_balances@ == old(self).lp_balances@
                && final(self).match_depth == old(self).match_depth,
            r is Err ==> *final(self) == *old(self),
    {
        let mut pool = match self.pool {
            Some(p) => p,
            None => return Err(Error::NotInitialized),
        };
        validate_guards(&guards)?;
        pool.guards = guards;
        self.pool = Some(pool);
        Ok(())
    }


    /// Deposit token_a and token_b, receive LP shares.
    pub fn deposit(
        &mut self,
        this: Account,
        to: Account,
        amount_a: i128,
        amount_b: i128,
        transfers: &mut Vec<Transfer>,
    ) -> (r: Result<i128, Error>)
        requires
            old(self).wf(),
        ensures
            final(self).wf(),
            r == (match deposit_spec(old(self).pool, amount_in(old(self).lp_balances@, to), amount_a as int, amount_b as int) {
                Ok(sh) => Ok(sh as i128),
                Err(e) => Err(e),
            }),
            r matches Ok(sh) ==> {
                let p = old(self).pool.unwrap();
                &&& final(self).pool == Some(PoolState {
                    reserve_a: (p.reserve_a + amount_a) as i128,
                    reserve_b: (p.reserve_b + amount_b) as i128,
                    total_shares: (p.total_shares + sh) as i128,
                    ..p
                })
                &&& forall|u: Account| amount_in(final(self).lp_balances@, u)
                    == amount_in(old(self).lp_balances@, u) + (if u == to { sh as int } else { 0 })
                &&& final(self).bids@ == old(self).bids@
                &&& final(self).asks@ == old(self).asks@
                &&& final(self).match_depth == old(self).match_depth
                &&& final(transfers)@ == old(transfers)@
                    .push(Transfer { token: p.token_a, from: to, to: this, amount: amount_a })
                    .push(Transfer { token: p.token_b, from: to, to: this, amount: amount_b })
            },
            r is Err ==> *final(self) == *old(self) && final(transfers)@ == old(transfers)@,
    {
        if amount_a <= 0 || amount_b <= 0 {
            return Err(Error::InvalidAmount);
        }
        let mut pool = match self.pool {
            Some(p) => p,
            None => return Err(Error::NotInitialized),
        };
        let shares = if pool.total_shares == 0 {
            let prod = match amount_a.checked_mul(amount_b) {
                Some(v) => v,
                None => return Err(Error::InvalidAmount),
            };
            if prod == i128::MAX {
                return Err(Error::Overflow);
            }
            sqrt(prod)
        } else {
            let na = match amount_a.checked_mul(pool.total_shares) {
                Some(v) => v,
                None => return Err(Error::InvalidAmount),
            };
            let s_a = match checked_div(na, pool.reserve_a) {
                Some(v) => v,
                None => return Err(Error::Overflow),
            };
            let nb = match amount_b.checked_mul(pool.total_shares) {
                Some(v) => v,
                None => return Err(Error::InvalidAmount),
            };
            let s_b = match checked_div(nb, pool.reserve_b) {
                Some(v) => v,
                None => return Err(Error::Overflow),
            };
            if s_a <= s_b { s_a } else { s_b }
        };
        assert(shares_for(pool, amount_a as int, amount_b as int) == Ok::<int, Error>(shares as int));
        proof {
            if pool.lp_fee_bps < BPS_DENOMINATOR {
                lemma_share_within_total(self.lp_balances@, to);
                lemma_minted_nonneg(pool, amount_a as int, amount_b as int);
            }
        }

        let cur = balance_of(&self.lp_balances, to);
        let new_bal = match cur.checked_add(shares) {
            Some(v) => v,
            None => return Err(Error::Overflow),
        };
        let ra = match pool.reserve_a.checked_add(amount_a) {
            Some(v) => v,
            None => return Err(Error::Overflow),
        };
        let rb = match pool.reserve_b.checked_add(amount_b) {
            Some(v) => v,
            None => return Err(Error::Overflow),
        };
        let ts = match pool.total_shares.checked_add(shares) {
            Some(v) => v,
            None => return Err(Error::Overflow),
        };
        set_balance(&mut self.lp_balances, to, new_bal);
        pool.reserve_a = ra;
        pool.reserve_b = rb;
        pool.total_shares = ts;
        self.pool = Some(pool);
        transfers.push(Transfer { token: pool.token_a, from: to, to: this, amount: amount_a });
        transfers.push(Transfer { token: pool.token_b, from: to, to: this, amount: amount_b });
        Ok(shares)
    }

    /// Burn LP shares and withdraw proportional reserves.
    pub fn withdraw(
        &mut self,
        this: Account,
        to: Account,
        shares: i128,
        transfers: &mut Vec<Transfer>,
    ) -> (r: Result<(i128, i128), Error>)
        requires
            old(self).wf(),
        ensures
            final(self).wf(),
            r == (match withdraw_spec(old(self).pool, amount_in(old(self).lp_balances@, to), shares as int) {
                Ok((a, b)) => Ok((a as i128, b as i128)),
                Err(e) => Err(e),
            }),
            r matches Ok((out_a, out_b)) ==> {
                let p = old(self).pool.unwrap();
                &&& final(self).pool == Some(PoolState {
                    reserve_a: (p.reserve_a - out_a) as i128,
                    reserve_b: (p.reserve_b - out_b) as i128,
                    total_shares: (p.total_shares - shares) as i128,
                    ..p
                })
                &&& forall|u: Account| amount_in(final(self).lp_balances@, u)
                    == amount_in(old(self).lp_balances@, u) - (if u == to { shares as int } else { 0 })
                &&& final(self).bids@ == old(self).bids@
                &&& final(self).asks@ == old(self).asks@
                &&& final(self).match_depth == old(self).match_depth
                &&& final(transfers)@ == old(transfers)@
                    .push(Transfer { token: p.token_a, from: this, to, amount: out_a })
                    .push(Transfer { token: p.token_b, from: this, to, amount: out_b })
            },
            r is Err ==> *final(self) == *old(self) && final(transfers)@ == old(transfers)@,
    {
        if shares <= 0 {
            return Err(Error::InvalidAmount);
        }
        let mut pool = match self.pool {
            Some(p) => p,
            None => return Err(Error::NotInitialized),
        };
        let cur = balance_of(&self.lp_balances, to);
        if shares > cur {
            return Err(Error::InsufficientShares);
        }
        let pa = match shares.checked_mul(pool.reserve_a) {
            Some(v) => v,
            None => return Err(Error::Overflow),
        };
        let out_a = match checked_div(pa, pool.total_shares) {
            Some(v) => v,
            None => return Err(Error::Overflow),
        };
        let pb = match shares.checked_mul(pool.reserve_b) {
            Some(v) => v,
            None => return Err(Error::Overflow),
        };
        let out_b = match checked_div(pb, pool.total_shares) {
            Some(v) => v,
            None => return Err(Error::Overflow),
        };
        assert(out_a == tdiv(shares * pool.reserve_a, pool.total_shares as int));
        assert(out_b == tdiv(shares * pool.reserve_b, pool.total_shares as int));
        proof {
            if pool.lp_fee_bps < BPS_DENOMINATOR {
                lemma_share_within_total(self.lp_balances@, to);
                lemma_withdrawn_within_reserve(shares as int, pool.reserve_a as int, pool.total_shares as int);
                lemma_withdrawn_within_reserve(shares as int, pool.reserve_b as int, pool.total_shares as int);
            }
        }
        let new_bal = match cur.checked_sub(shares) {
            Some(v) => v,
            None => return Err(Error::Overflow),
        };
        let ra = match pool.reserve_a.checked_sub(out_a) {
            Some(v) => v,
            None => return Err(Error::Overflow),
        };
        let rb = match pool.reserve_b.checked_sub(out_b) {
            Some(v) => v,
            None => return Err(Error::Overflow),
        };
        let ts = match pool.total_shares.checked_sub(shares) {
            Some(v) => v,
            None => return Err(Error::Overflow),
        };
        set_balance(&mut self.lp_balances, to, new_bal);
        pool.reserve_a = ra;
        pool.reserve_b = rb;
        pool.total_shares = ts;
        self.pool = Some(pool);
        transfers.push(Transfer { token: pool.token_a, from: this, to, amount: out_a });
        transfers.push(Transfer { token: pool.token_b, from: this, to, amount: out_b });
        Ok((out_a, out_b))
    }


    /// Place a limit order.
    ///
    /// - `is_bid = true`:  buy `amount` of token_a, paying at most `price` token_b per token_a.
    ///   Maker deposits `amount * price / PRICE_SCALE` token_b upfront.
    /// - `is_bid = false`: sell `amount` of token_a at minimum `price` token_b per token_a.
    ///   Maker deposits `amount` token_a upfront.
    ///
    /// Returns the assigned order id.
    pub fn place_order(
        &mut self,
        this: Account,
        maker: Account,
        is_bid: bool,
        price: i128,
        amount: i128,
        transfers: &mut Vec<Transfer>,
    ) -> (r: Result<u64, Error>)
        requires
            old(self).wf(),
        ensures
            final(self).wf(),
            r == (match place_spec(old(self).pool, is_bid, price as int, amount as int) {
                Ok((id, _)) => Ok(id),
                Err(e) => Err(e),
            }),
            r matches Ok(id) ==> {
                let p = old(self).pool.unwrap();
                let o = Order { id, maker, is_bid, price, amount };
                let escrow = place_spec(old(self).pool, is_bid, price as int, amount as int).unwrap().1;
                &&& final(self).pool == Some(PoolState { next_order_id: (p.next_order_id + 1) as u64, ..p })
                &&& is_bid ==> final(self).asks@ == old(self).asks@ && exists|k: int|
                    bid_slot(old(self).bids@, price as int, k) && final(self).bids@ == old(self).bids@.insert(k, o)
                &&& !is_bid ==> final(self).bids@ == old(self).bids@ && exists|k: int|
                    ask_slot(old(self).asks@, price as int, k) && final(self).asks@ == old(self).asks@.insert(k, o)
                &&& final(self).lp_balances@ == old(self).lp_balances@
                &&& final(self).match_depth == old(self).match_depth
                &&& final(transfers)@ == old(transfers)@.push(Transfer {
                    token: if is_bid { p.token_b } else { p.token_a },
                    from: maker,
                    to: this,
                    amount: escrow as i128,
                })
            },
            r is Err ==> *final(self) == *old(self) && final(transfers)@ == old(transfers)@,
    {
        if amount <= 0 {
            return Err(Error::InvalidAmount);
        }
        if price <= 0 {
            return Err(Error::InvalidPrice);
        }
        let mut pool = match self.pool {
            Some(p) => p,
            None => return Err(Error::NotInitialized),
        };
        // Escrow the offered token from the maker.
        let escrow = if is_bid {
            match amount.checked_mul(price) {
                Some(v) => v / PRICE_SCALE,
                None => return Err(Error::InvalidAmount),
            }
        } else {
            amount
        };
        if pool.next_order_id == u64::MAX {
            return Err(Error::Overflow);
        }
        let id = pool.next_order_id;
        pool.next_order_id = pool.next_order_id + 1;
        let order = Order { id, maker, is_bid, price, amount };
        if is_bid {
            insert_bid(&mut self.bids, order);
        } else {
            insert_ask(&mut self.asks, order);
        }
        self.pool = Some(pool);
        transfers.push(Transfer {
            token: if is_bid { pool.token_b } else { pool.token_a },
            from: maker,
            to: this,
            amount: escrow,
        });
        Ok(id)
    }

    /// Cancel an open order and refund the escrowed tokens.
    pub fn cancel_order(
        &mut self,
        this: Account,
        maker: Account,
        order_id: u64,
        transfers: &mut Vec<Transfer>,
    ) -> (r: Result<(), Error>)
        requires
            old(self).wf(),
        ensures
            final(self).wf(),
            old(self).pool is None ==> r == Err::<(), Error>(Error::NotInitialized),
            old(self).pool matches Some(p) ==> match find_order(old(self).bids@, order_id, 0) {
                Some(k) => {
                    let o = old(self).bids@[k];
                    if !(o.maker == maker) {
                        r == Err::<(), Error>(Error::Unauthorized)
                    } else if !fits(o.amount * o.price) {
                        r == Err::<(), Error>(Error::InvalidAmount)
                    } else {
                        &&& r is Ok
                        &&& final(self).bids@ == old(self).bids@.remove(k)
                        &&& final(self).asks@ == old(self).asks@
                        &&& final(transfers)@ == old(transfers)@.push(Transfer {
                            token: p.token_b,
                            from: this,
                            to: maker,
                            amount: ((o.amount * o.price) / (PRICE_SCALE as int)) as i128,
                        })
                    }
                },
                None => match find_order(old(self).asks@, order_id, 0) {
                    Some(k) => {
                        let o = old(self).asks@[k];
                        if !(o.maker == maker) {
                            r == Err::<(), Error>(Error::Unauthorized)
                        } else {
                            &&& r is Ok
                            &&& final(self).asks@ == old(self).asks@.remove(k)
                            &&& final(self).bids@ == old(self).bids@
                            &&& final(transfers)@ == old(transfers)@.push(Transfer {
                                token: p.token_a,
                                from: this,
                                to: maker,
                                amount: o.amount,
                            })
                        }
                    },
                    None => r == Err::<(), Error>(Error::OrderNotFound),
                },
            },
            r is Ok ==> final(self).pool == old(self).pool && final(self).lp_balances@ == old(self).lp_balances@
                && final(self).match_depth == old(self).match_depth,
            r is Err ==> *final(self) == *old(self) && final(transfers)@ == old(transfers)@,
    {
        let pool = match self.pool {
            Some(p) => p,
            None => return Err(Error::NotInitialized),
        };
        proof {
            lemma_find_order(self.bids@, order_id, 0);
            lemma_find_order(self.asks@, order_id, 0);
        }
        // Search bids first, then asks.
        match find_order_index(&self.bids, order_id) {
            Some(i) => {
                let o = self.bids[i];
                if !(o.maker == maker) {
                    return Err(Error::Unauthorized);
                }
                // Refund escrowed token_b.
                let refund = match o.amount.checked_mul(o.price) {
                    Some(v) => v / PRICE_SCALE,
                    None => return Err(Error::InvalidAmount),
                };
                proof {
                    lemma_remove_keeps_bids(self.bids@, i as int);
                }
                self.bids.remove(i);
                transfers.push(Transfer { token: pool.token_b, from: this, to: maker, amount: refund });
                return Ok(());
            },
            None => {},
        }
        match find_order_index(&self.asks, order_id) {
            Some(i) => {
                let o = self.asks[i];
                if !(o.maker == maker) {
                    return Err(Error::Unauthorized);
                }
                proof {
                    lemma_remove_keeps_asks(self.asks@, i as int);
                }
                self.asks.remove(i);
                // Refund escrowed token_a.
                transfers.push(Transfer { token: pool.token_a, from: this, to: maker, amount: o.amount });
                Ok(())
            },
            None => Err(Error::OrderNotFound),
        }
    }


    /// Swap tokens, filling limit orders first then falling back to the AMM.
    ///
    /// - `buy_a = true`:  taker pays token_b, receives token_a.
    /// - `buy_a = false`: taker pays token_a, receives token_b.
    /// - `out`:    exact amount of output token desired.
    /// - `in_max`: maximum input the taker will pay (slippage guard).
    ///
    /// Fee model:
    /// - LOB fills: the taker pays the maker a `maker_fee_bps` premium on top
    ///   of the order's price, settled directly between the two parties.
    /// - AMM fills: `lp_fee_bps` of the input stays in the pool.
    ///
    /// Safeguards:
    /// - **Execution depth.** At most `max_match_depth` limit orders may be
    ///   consumed per ledger, counted across every swap in that ledger; then
    ///   the AMM prices the remainder.
    /// - **Price band.** Limit orders priced worse than the pool's spot price
    ///   by more than `max_price_deviation_bps` are not matched.
    /// - **Pool deviation.** If the AMM leg would move the pool's spot price by
    ///   more than `max_price_deviation_bps`, the swap fails with
    ///   [`Error::PriceDeviationExceeded`].
    pub fn swap(
        &mut self,
        this: Account,
        ledger: u32,
        taker: Account,
        buy_a: bool,
        out: i128,
        in_max: i128,
        transfers: &mut Vec<Transfer>,
    ) -> (r: Result<SwapResult, Error>)
        requires
            old(self).wf(),
        ensures
            final(self).wf(),
            match swap_spec(old(self).pool, old(self).bids@, old(self).asks@, old(self).match_depth, ledger,
                this, taker, buy_a, out as int, in_max as int) {
                Err(e) => r == Err::<SwapResult, Error>(e) && *final(self) == *old(self)
                    && final(transfers)@ == old(transfers)@,
                Ok((res, p2, book, d2, tr)) => {
                    &&& r == Ok::<SwapResult, Error>(res)
                    &&& final(self).pool == Some(p2)
                    &&& buy_a ==> final(self).asks@ == book && final(self).bids@ == old(self).bids@
                    &&& !buy_a ==> final(self).bids@ == book && final(self).asks@ == old(self).asks@
                    &&& final(self).match_depth == d2
                    &&& final(self).lp_balances@ == old(self).lp_balances@
                    &&& final(transfers)@ == old(transfers)@ + tr
                },
            },
    {
        if out <= 0 {
            return Err(Error::InvalidAmount);
        }
        let pool = match self.pool {
            Some(p) => p,
            None => return Err(Error::NotInitialized),
        };
        // Pool spot price captured before anything moves. It anchors both the
        // limit-order price band and the post-swap pool deviation check.
        let reference_price = spot_price(&pool);
        // Execution-depth budget left in this ledger.
        let depth_used = self.get_match_depth_used(ledger);
        let depth_budget = pool.guards.max_match_depth.saturating_sub(depth_used);
        let max_dev = pool.guards.max_price_deviation_bps;

        let mut book = if buy_a { self.asks.clone() } else { self.bids.clone() };
        let mut tr: Vec<Transfer> = Vec::new();
        let (remaining, lob_in, lob_filled, matched) = if buy_a {
            run_ask_phase(&mut book, out, reference_price, max_dev, depth_budget, pool.maker_fee_bps,
                pool.token_a, pool.token_b, this, taker, &mut tr)?
        } else {
            run_bid_phase(&mut book, out, reference_price, max_dev, depth_budget, pool.maker_fee_bps,
                pool.token_a, pool.token_b, this, taker, &mut tr)?
        };
        let depth2 = if matched > 0 {
            Some(MatchDepth { ledger, consumed: depth_used + matched })
        } else {
            self.match_depth
        };

        let mut total_in = lob_in;
        let mut amm_in: i128 = 0;
        let mut pool2 = pool;
        if remaining > 0 {
            let (ai, np) = run_amm_leg(&pool, buy_a, remaining)?;
            total_in = match lob_in.checked_add(ai) {
                Some(v) => v,
                None => return Err(Error::Overflow),
            };
            amm_in = ai;
            pool2 = np;
            // Pool deviation guard: reject a swap that drags the pool's spot
            // price outside tolerance.
            match reference_price {
                Some(rv) => {
                    let post_price = match spot_price(&pool2) {
                        Some(v) => v,
                        None => return Err(Error::InsufficientLiquidity),
                    };
                    if deviation_bps(post_price, rv)? > max_dev {
                        return Err(Error::PriceDeviationExceeded);
                    }
                },
                None => {},
            }
        }
        if total_in > in_max {
            return Err(Error::SlippageExceeded);
        }
        // Settle the AMM leg. LOB fills were settled maker-to-taker above.
        if remaining > 0 {
            let token_in = if buy_a { pool.token_b } else { pool.token_a };
            let token_out = if buy_a { pool.token_a } else { pool.token_b };
            tr.push(Transfer { token: token_in, from: taker, to: this, amount: amm_in });
            tr.push(Transfer { token: token_out, from: this, to: taker, amount: remaining });
        }
        self.pool = Some(pool2);
        if buy_a {
            self.asks = book;
        } else {
            self.bids = book;
        }
        self.match_depth = depth2;
        transfers.append(&mut tr);
        Ok(SwapResult {
            amount_in: total_in,
            amount_out: out,
            lob_filled,
            amm_filled: if remaining > 0 { remaining } else { 0 },
        })
    }

    pub fn get_guards(&self) -> (r: Result<Guards, Error>)
        ensures
            r == (match self.pool {
                Some(p) => Ok(p.guards),
                None => Err(Error::NotInitialized),
            }),
    {
        match self.pool {
            Some(p) => Ok(p.guards),
            None => Err(Error::NotInitialized),
        }
    }

    pub fn get_pool(&self) -> (r: Result<PoolState, Error>)
        ensures
            r == (match self.pool {
                Some(p) => Ok(p),
                None => Err(Error::NotInitialized),
            }),
    {
        match self.pool {
            Some(p) => Ok(p),
            None => Err(Error::NotInitialized),
        }
    }

    pub fn get_bids(&self) -> (r: Vec<Order>)
        ensures
            r@ == self.bids@,
    {
        self.bids.clone()
    }

    pub fn get_asks(&self) -> (r: Vec<Order>)
        ensures
            r@ == self.asks@,
    {
        self.asks.clone()
    }

    pub fn lp_balance(&self, user: Account) -> (r: i128)
        requires
            self.wf(),
        ensures
            r == amount_in(self.lp_balances@, user),
    {
        balance_of(&self.lp_balances, user)
    }

    /// Depth already consumed during `ledger`.
    pub fn get_match_depth_used(&self, ledger: u32) -> (r: u32)
        ensures
            r == depth_used_spec(self.match_depth, ledger),
    {
        match self.match_depth {
            Some(d) => if d.ledger == ledger { d.consumed } else { 0 },
            None => 0,
        }
    }

    /// Execution depth still available in `ledger`.
    pub fn get_match_depth_remaining(&self, ledger: u32) -> (r: Result<u32, Error>)
        ensures
            r == (match self.pool {
                Some(p) => Ok(
                    if p.guards.max_match_depth >= depth_used_spec(self.match_depth, ledger) {
                        (p.guards.max_match_depth - depth_used_spec(self.match_depth, ledger)) as u32
                    } else {
                        0u32
                    },
                ),
                None => Err(Error::NotInitialized),
            }),
    {
        let pool = match self.pool {
            Some(p) => p,
            None => return Err(Error::NotInitialized),
        };
        Ok(pool.guards.max_match_depth.saturating_sub(self.get_match_depth_used(ledger)))
    }

    /// Pool spot price (token_b per token_a, scaled by `PRICE_SCALE`), or 0
    /// when the pool holds no liquidity.
    pub fn get_spot_price(&self) -> (r: Result<i128, Error>)
        ensures
            r == (match self.pool {
                Some(p) => Ok(match spot_price_spec(p.reserve_a as int, p.reserve_b as int) {
                    Some(v) => v as i128,
                    None => 0i128,
                }),
                None => Err(Error::NotInitialized),
            }),
    {
        let pool = match self.pool {
            Some(p) => p,
            None => return Err(Error::NotInitialized),
        };
        match spot_price(&pool) {
            Some(v) => Ok(v),
            None => Ok(0),
        }
    }
}


proof fn lemma_ask_phase(st: PhaseState, reference: Option<int>, max_dev: int, budget: int, fee: int,
    token_a: Account, token_b: Account, this: Account, taker: Account)
    requires
        st.2 >= 0,
        0 <= st.5 <= budget,
        forall|k: int| 0 <= k < st.0.len() ==> #[trigger] st.0[k].amount > 0,
    ensures
        ask_phase(st, reference, max_dev, budget, fee, token_a, token_b, this, taker) matches Ok(st2) ==>
            st2.2 + st2.4 == st.2 + st.4 && 0 <= st2.2 <= st.2 && st.5 <= st2.5 <= budget,
    decreases st.0.len() - st.1,
{
    let (book, i, rem, tin, filled, matched, tr) = st;
    if i < 0 || i >= book.len() || rem <= 0 {
    } else {
        let o = book[i];
        let fill = min_int(rem, o.amount as int);
        let left = o.amount - fill;
        let book2 = if left == 0 { book.remove(i) } else { book.update(i, Order { amount: left as i128, ..o }) };
        assert forall|k: int| 0 <= k < book2.len() implies #[trigger] book2[k].amount > 0 by {
            if left == 0 {
                if k >= i { assert(book2[k] == book[k + 1]); }
            } else if k != i {
                assert(book2[k] == book[k]);
            }
        }
        let i2 = if left == 0 { i } else { i + 1 };
        let cost = (fill * o.price) / (PRICE_SCALE as int)
            + ((fill * o.price) / (PRICE_SCALE as int) * fee) / (BPS_DENOMINATOR as int);
        if matched < budget {
            lemma_ask_phase((book2, i2, rem - fill, tin + cost, filled + fill, matched + 1,
                tr.push(Transfer { token: token_b, from: taker, to: o.maker, amount: cost as i128 })
                    .push(Transfer { token: token_a, from: this, to: taker, amount: fill as i128 })),
                reference, max_dev, budget, fee, token_a, token_b, this, taker);
        }
    }
}

proof fn lemma_bid_phase(st: PhaseState, reference: Option<int>, max_dev: int, budget: int, fee: int,
    token_a: Account, token_b: Account, this: Account, taker: Account)
    requires
        st.2 >= 0,
        0 <= st.5 <= budget,
        forall|k: int| 0 <= k < st.0.len() ==> #[trigger] st.0[k].amount > 0 && st.0[k].price > 0,
    ensures
        bid_phase(st, reference, max_dev, budget, fee, token_a, token_b, this, taker) matches Ok(st2) ==>
            st2.2 + st2.4 == st.2 + st.4 && 0 <= st2.2 <= st.2 && st.5 <= st2.5 <= budget,
    decreases st.0.len() - st.1,
{
    let (book, i, rem, tin, filled, matched, tr) = st;
    if i < 0 || i >= book.len() || rem <= 0 {
    } else {
        let o = book[i];
        let cap = (o.amount * o.price) / (PRICE_SCALE as int);
        let fill_b = min_int(rem, cap);
        let fill_a = (fill_b * PRICE_SCALE) / (o.price as int);
        assert(0 <= cap) by (nonlinear_arith)
            requires o.amount > 0, o.price > 0, cap == (o.amount * o.price) / (PRICE_SCALE as int),
        ;
        assert(0 <= fill_a <= o.amount) by (nonlinear_arith)
            requires
                0 <= fill_b <= cap,
                cap == (o.amount * o.price) / (PRICE_SCALE as int),
                fill_a == (fill_b * PRICE_SCALE) / (o.price as int),
                o.price > 0,
                o.amount > 0,
        {
            vstd::arithmetic::div_mod::lemma_fundamental_div_mod(o.amount * o.price, PRICE_SCALE as int);
            vstd::arithmetic::div_mod::lemma_div_is_ordered(fill_b * PRICE_SCALE, o.amount * o.price, o.price as int);
            vstd::arithmetic::div_mod::lemma_div_by_multiple(o.amount as int, o.price as int);
            vstd::arithmetic::div_mod::lemma_div_pos_is_pos(fill_b * PRICE_SCALE, o.price as int);
        }
        let left = o.amount - fill_a;
        let book2 = if left == 0 { book.remove(i) } else { book.update(i, Order { amount: left as i128, ..o }) };
        assert forall|k: int| 0 <= k < book2.len() implies #[trigger] book2[k].amount > 0 && book2[k].price > 0 by {
            if left == 0 {
                if k >= i { assert(book2[k] == book[k + 1]); }
            } else if k != i {
                assert(book2[k] == book[k]);
            }
        }
        let i2 = if left == 0 { i } else { i + 1 };
        let cost = fill_a + (fill_a * fee) / (BPS_DENOMINATOR as int);
        if matched < budget {
            lemma_bid_phase((book2, i2, rem - fill_b, tin + cost, filled + fill_b, matched + 1,
                tr.push(Transfer { token: token_a, from: taker, to: o.maker, amount: cost as i128 })
                    .push(Transfer { token: token_b, from: this, to: taker, amount: fill_b as i128 })),
                reference, max_dev, budget, fee, token_a, token_b, this, taker);
        }
    }
}

/// A swap that succeeds delivers exactly the requested output, split
/// between the book and the AMM, and charges at most `in_max`.
pub proof fn law_swap_exact_output_within_limit(
    pool: Option<PoolState>,
    bids: Seq<Order>,
    asks: Seq<Order>,
    depth: Option<MatchDepth>,
    ledger: u32,
    this: Account,
    taker: Account,
    buy_a: bool,
    out: int,
    in_max: int,
)
    requires
        asks_sorted(asks),
        bids_sorted(bids),
        fits(out),
        fits(in_max),
    ensures
        swap_spec(pool, bids, asks, depth, ledger, this, taker, buy_a, out, in_max) matches Ok((res, _p, _b, _d, _t)) ==> {
            &&& res.amount_out == out
            &&& res.lob_filled + res.amm_filled == out
            &&& res.lob_filled >= 0 && res.amm_filled >= 0
            &&& res.amount_in <= in_max
        },
{
    if out > 0 {
        if let Some(p) = pool {
            let reference = spot_price_spec(p.reserve_a as int, p.reserve_b as int);
            let used = depth_used_spec(depth, ledger) as int;
            let budget = budget_spec(p, used);
            let start: PhaseState = (if buy_a { asks } else { bids }, 0, out, 0, 0, 0, Seq::empty());
            if buy_a {
                lemma_ask_phase(start, reference, p.guards.max_price_deviation_bps as int, budget,
                    p.maker_fee_bps as int, p.token_a, p.token_b, this, taker);
            } else {
                lemma_bid_phase(start, reference, p.guards.max_price_deviation_bps as int, budget,
                    p.maker_fee_bps as int, p.token_a, p.token_b, this, taker);
            }
            let phase = if buy_a {
                ask_phase(start, reference, p.guards.max_price_deviation_bps as int, budget,
                    p.maker_fee_bps as int, p.token_a, p.token_b, this, taker)
            } else {
                bid_phase(start, reference, p.guards.max_price_deviation_bps as int, budget,
                    p.maker_fee_bps as int, p.token_a, p.token_b, this, taker)
            };
            if let Ok(st) = phase {
                assert(st.2 + st.4 == out);
                assert(0 <= st.2 <= out);
            }
        }
    }
}

/// The per-ledger depth counter never rises above `max_match_depth`
/// (unless it stood above it already, after the guards were lowered), and a
/// swap only ever counts against the current ledger.
pub proof fn law_swap_depth_budget(
    pool: Option<PoolState>,
    bids: Seq<Order>,
    asks: Seq<Order>,
    depth: Option<MatchDepth>,
    ledger: u32,
    this: Account,
    taker: Account,
    buy_a: bool,
    out: int,
    in_max: int,
)
    requires
        asks_sorted(asks),
        bids_sorted(bids),
    ensures
        swap_spec(pool, bids, asks, depth, ledger, this, taker, buy_a, out, in_max) matches Ok((_r, _p, _b, d2, _t)) ==> {
            let cap = pool.unwrap().guards.max_match_depth as int;
            let before = depth_used_spec(depth, ledger) as int;
            &&& depth_used_spec(d2, ledger) <= if before > cap { before } else { cap }
            &&& d2 != depth ==> (d2 matches Some(m) && m.ledger == ledger)
        },
{
    if out > 0 {
        if let Some(p) = pool {
            let reference = spot_price_spec(p.reserve_a as int, p.reserve_b as int);
            let used = depth_used_spec(depth, ledger) as int;
            let budget = budget_spec(p, used);
            let start: PhaseState = (if buy_a { asks } else { bids }, 0, out, 0, 0, 0, Seq::empty());
            if buy_a {
                lemma_ask_phase(start, reference, p.guards.max_price_deviation_bps as int, budget,
                    p.maker_fee_bps as int, p.token_a, p.token_b, this, taker);
            } else {
                lemma_bid_phase(start, reference, p.guards.max_price_deviation_bps as int, budget,
                    p.maker_fee_bps as int, p.token_a, p.token_b, this, taker);
            }
        }
    }
}

proof fn lemma_floor_div_above(num: int, den: int)
    requires
        num >= 0,
        den > 0,
    ensures
        (num / den + 1) * den > num,
        num / den >= 0,
{
    vstd::arithmetic::div_mod::lemma_fundamental_div_mod(num, den);
    vstd::arithmetic::div_mod::lemma_div_pos_is_pos(num, den);
    vstd::arithmetic::div_mod::lemma_mod_pos_bound(num, den);
    let q = num / den;
    let m = num % den;
    assert((q + 1) * den > num) by (nonlinear_arith)
        requires num == den * q + m, m < den;
}

proof fn lemma_cancel_positive(x: int, y: int, c: int)
    requires
        c > 0,
        x * c > y * c,
    ensures
        x > y,
{
    if x <= y {
        assert(x * c <= y * c) by (nonlinear_arith)
            requires x <= y, c > 0;
    }
}

/// The AMM leg charges enough that the product of the reserves grows,
/// when the fee is below 100%.
proof fn lemma_amm_leg_product(p: PoolState, buy_a: bool, rem: int)
    requires
        p.reserve_a >= 0,
        p.reserve_b >= 0,
        0 <= p.lp_fee_bps < BPS_DENOMINATOR,
        rem >= 0,
    ensures
        amm_leg(p, buy_a, rem) matches Ok((amm_in, p2)) ==> {
            &&& amm_in > 0
            &&& p2.reserve_a as int * p2.reserve_b as int > p.reserve_a as int * p.reserve_b as int
            &&& p2 == (PoolState { reserve_a: p2.reserve_a, reserve_b: p2.reserve_b, ..p })
            &&& buy_a ==> p2.reserve_a == p.reserve_a - rem && p2.reserve_b == p.reserve_b + amm_in
            &&& !buy_a ==> p2.reserve_b == p.reserve_b - rem && p2.reserve_a == p.reserve_a + amm_in
        },
{
    let rin: int = if buy_a { p.reserve_b as int } else { p.reserve_a as int };
    let rout: int = if buy_a { p.reserve_a as int } else { p.reserve_b as int };
    if let Ok((amm_in, p2)) = amm_leg(p, buy_a, rem) {
        let f = BPS_DENOMINATOR - p.lp_fee_bps;
        let num = rin * rem * BPS_DENOMINATOR;
        let den = (rout - rem) * f;
        assert(rin * rem >= 0) by (nonlinear_arith)
            requires rin >= 0, rem >= 0;
        assert(den > 0) by (nonlinear_arith)
            requires rout - rem > 0, f > 0, den == (rout - rem) * f;
        lemma_floor_div_above(num, den);
        assert(tdiv(num, den) == num / den);
        assert(amm_in == num / den + 1);
        // amm_in * (rout - rem) * f > rin * rem * 10_000 >= rin * rem * f
        assert(amm_in * (rout - rem) * f > (rin * rem) * f) by (nonlinear_arith)
            requires
                amm_in * den > num,
                den == (rout - rem) * f,
                num == rin * rem * 10_000,
                rin * rem >= 0,
                0 < f <= 10_000;
        lemma_cancel_positive(amm_in * (rout - rem), rin * rem, f);
        assert((rout - rem) * (rin + amm_in) > rin * rout) by (nonlinear_arith)
            requires amm_in * (rout - rem) > rin * rem;
        if buy_a {
            assert(p2.reserve_a as int * p2.reserve_b as int == (rout - rem) * (rin + amm_in));
            assert(p.reserve_a as int * p.reserve_b as int == rin * rout) by (nonlinear_arith)
                requires rout == p.reserve_a, rin == p.reserve_b;
        } else {
            assert(p2.reserve_a as int * p2.reserve_b as int == (rout - rem) * (rin + amm_in)) by (nonlinear_arith)
                requires p2.reserve_a == rin + amm_in, p2.reserve_b == rout - rem;
            assert(p.reserve_a as int * p.reserve_b as int == rin * rout);
        }
        assert(amm_in > 0);
        assert(p2.reserve_a as int * p2.reserve_b as int > p.reserve_a as int * p.reserve_b as int);
        assert(p2 == (PoolState { reserve_a: p2.reserve_a, reserve_b: p2.reserve_b, ..p }));
    }
}

/// What a swap does to the reserves, for a pool with no negative reserve
/// and an LP fee below 100%.
proof fn lemma_swap_product(
    pool: Option<PoolState>,
    bids: Seq<Order>,
    asks: Seq<Order>,
    depth: Option<MatchDepth>,
    ledger: u32,
    this: Account,
    taker: Account,
    buy_a: bool,
    out: int,
    in_max: int,
)
    requires
        pool matches Some(p) && p.reserve_a >= 0 && p.reserve_b >= 0 && 0 <= p.lp_fee_bps < BPS_DENOMINATOR,
    ensures
        swap_spec(pool, bids, asks, depth, ledger, this, taker, buy_a, out, in_max) matches Ok((r, p2, _b, _d, _t)) ==> {
            let p = pool.unwrap();
            &&& p2 == (PoolState { reserve_a: p2.reserve_a, reserve_b: p2.reserve_b, ..p })
            &&& r.amm_filled >= 0
            &&& r.amm_filled == 0 ==> p2 == p
            &&& r.amm_filled > 0 ==> {
                &&& p2.reserve_a as int * p2.reserve_b as int > p.reserve_a as int * p.reserve_b as int
                &&& buy_a ==> p2.reserve_a == p.reserve_a - r.amm_filled
                &&& !buy_a ==> p2.reserve_b == p.reserve_b - r.amm_filled
            }
        },
{
    if out > 0 {
        let p = pool.unwrap();
        let reference = spot_price_spec(p.reserve_a as int, p.reserve_b as int);
        let used = depth_used_spec(depth, ledger) as int;
        let budget = budget_spec(p, used);
        let start: PhaseState = (if buy_a { asks } else { bids }, 0, out, 0, 0, 0, Seq::empty());
        let phase = if buy_a {
            ask_phase(start, reference, p.guards.max_price_deviation_bps as int, budget,
                p.maker_fee_bps as int, p.token_a, p.token_b, this, taker)
        } else {
            bid_phase(start, reference, p.guards.max_price_deviation_bps as int, budget,
                p.maker_fee_bps as int, p.token_a, p.token_b, this, taker)
        };
        if let Ok(st) = phase {
            if st.2 > 0 {
                lemma_amm_leg_product(p, buy_a, st.2);
            }
        }
    }
}

/// A swap filled from the book alone leaves the pool's reserves as they
/// were; one with an AMM fill takes exactly that fill out of the output
/// reserve, puts the AMM input into the other, and strictly raises the
/// product of the reserves. Nothing else about the pool changes. This holds
/// of every state the contract keeps whose LP fee is below 100%.
pub proof fn law_swap_keeps_product(
    amm: HybridAmmLob,
    ledger: u32,
    this: Account,
    taker: Account,
    buy_a: bool,
    out: int,
    in_max: int,
)
    requires
        amm.wf(),
        amm.pool matches Some(p) && p.lp_fee_bps < BPS_DENOMINATOR,
    ensures
        swap_spec(amm.pool, amm.bids@, amm.asks@, amm.match_depth, ledger, this, taker, buy_a, out, in_max)
            matches Ok((r, p2, _b, _d, _t)) ==> {
            let p = amm.pool.unwrap();
            &&& p2 == (PoolState { reserve_a: p2.reserve_a, reserve_b: p2.reserve_b, ..p })
            &&& r.amm_filled >= 0
            &&& r.amm_filled == 0 ==> p2 == p
            &&& r.amm_filled > 0 ==> {
                &&& p2.reserve_a as int * p2.reserve_b as int > p.reserve_a as int * p.reserve_b as int
                &&& buy_a ==> p2.reserve_a == p.reserve_a - r.amm_filled
                &&& !buy_a ==> p2.reserve_b == p.reserve_b - r.amm_filled
            }
        },
{
    lemma_swap_product(amm.pool, amm.bids@, amm.asks@, amm.match_depth, ledger, this, taker, buy_a, out, in_max);
}

/// Floor division of a non-negative numerator by a positive divisor: `q`
/// is the largest integer with `q * d <= x`.
proof fn lemma_floor_bounds(x: int, d: int)
    requires
        x >= 0,
        d > 0,
    ensures
        tdiv(x, d) * d <= x < (tdiv(x, d) + 1) * d,
        tdiv(x, d) >= 0,
{
    assert(tdiv(x, d) == x / d);
    vstd::arithmetic::div_mod::lemma_fundamental_div_mod(x, d);
    assert(x / d >= 0) by (nonlinear_arith)
        requires x >= 0, d > 0;
    assert((x / d) * d <= x < (x / d + 1) * d) by (nonlinear_arith)
        requires x == d * (x / d) + x % d, 0 <= x % d < d;
}

/// A deposit into a pool that already has LP shares does not dilute the
/// LPs already in it: the shares minted are at most the deposit's
/// proportional share of the supply for each token
/// (`shares / total_shares <= amount / reserve`), and they are the largest
/// count that is, so one share more would dilute on one of the two sides.
pub proof fn law_deposit_does_not_dilute(pool: PoolState, cur: int, amount_a: int, amount_b: int)
    requires
        pool.total_shares > 0,
        pool.reserve_a >= 0,
        pool.reserve_b >= 0,
    ensures
        deposit_spec(Some(pool), cur, amount_a, amount_b) matches Ok(sh) ==> {
            &&& sh >= 0
            &&& sh * pool.reserve_a <= amount_a * pool.total_shares
            &&& sh * pool.reserve_b <= amount_b * pool.total_shares
            &&& (sh + 1) * pool.reserve_a > amount_a * pool.total_shares
                || (sh + 1) * pool.reserve_b > amount_b * pool.total_shares
        },
{
    if let Ok(sh) = deposit_spec(Some(pool), cur, amount_a, amount_b) {
        let ts = pool.total_shares as int;
        let ra = pool.reserve_a as int;
        let rb = pool.reserve_b as int;
        assert(amount_a * ts >= 0) by (nonlinear_arith)
            requires amount_a > 0, ts > 0;
        assert(amount_b * ts >= 0) by (nonlinear_arith)
            requires amount_b > 0, ts > 0;
        lemma_floor_bounds(amount_a * ts, ra);
        lemma_floor_bounds(amount_b * ts, rb);
        let qa = tdiv(amount_a * ts, ra);
        let qb = tdiv(amount_b * ts, rb);
        assert(sh == min_int(qa, qb));
        if qa <= qb {
            assert(sh * rb <= qb * rb) by (nonlinear_arith)
                requires sh <= qb, rb > 0;
        } else {
            assert(sh * ra <= qa * ra) by (nonlinear_arith)
                requires sh <= qa, ra > 0;
        }
    }
}

/// The first deposit into an empty pool mints the integer square root of
/// the product of the two amounts.
pub proof fn law_first_deposit_is_geometric_mean(pool: PoolState, cur: int, amount_a: int, amount_b: int)
    requires
        pool.total_shares == 0,
    ensures
        deposit_spec(Some(pool), cur, amount_a, amount_b) matches Ok(sh) ==>
            sh >= 0 && sh * sh <= amount_a * amount_b < (sh + 1) * (sh + 1),
{
    if let Ok(sh) = deposit_spec(Some(pool), cur, amount_a, amount_b) {
        assert(amount_a * amount_b >= 0) by (nonlinear_arith)
            requires amount_a > 0, amount_b > 0;
        lemma_isqrt_exists(amount_a * amount_b);
    }
}

/// A resting bid escrows the token_b it can pay out: its amount of token_a
/// at its price, in PRICE_SCALE units and rounded down
/// (`escrow * PRICE_SCALE <= amount * price < (escrow + 1) * PRICE_SCALE`);
/// an ask escrows its token_a amount. The order takes the pool's next id.
pub proof fn law_order_escrow(pool: Option<PoolState>, is_bid: bool, price: int, amount: int)
    ensures
        place_spec(pool, is_bid, price, amount) matches Ok((id, escrow)) ==> {
            &&& id == pool.unwrap().next_order_id
            &&& is_bid ==> escrow * PRICE_SCALE <= amount * price < (escrow + 1) * PRICE_SCALE
            &&& !is_bid ==> escrow == amount
        },
{
    if let Ok((id, escrow)) = place_spec(pool, is_bid, price, amount) {
        if is_bid {
            assert(amount * price >= 0) by (nonlinear_arith)
                requires amount > 0, price > 0;
            vstd::arithmetic::div_mod::lemma_fundamental_div_mod(amount * price, PRICE_SCALE as int);
        }
    }
}

} // verus!
