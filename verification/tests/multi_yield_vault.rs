use soroscope::ledger::{Account, Transfer};
use soroscope::multi_yield_vault::{
    estimate_apr_bps, split_by_weight, Error, MultiYieldVault, PoolAllocation, VaultState, DEFAULT_SLIPPAGE_BPS,
    DEFAULT_VOLUME_PROXY_BPS, MAX_POOLS,
};

fn account(n: u128) -> Account {
    Account { contract: false, key_hi: 0, key_lo: n }
}

fn pool(n: u128) -> Account {
    Account { contract: true, key_hi: 0, key_lo: 100 + n }
}

fn vault_with_pools(n: u128) -> MultiYieldVault {
    let mut v = MultiYieldVault::new();
    v.initialize(account(1), account(2), DEFAULT_SLIPPAGE_BPS, DEFAULT_VOLUME_PROXY_BPS).unwrap();
    for i in 0..n {
        v.register_pool(pool(i), i % 2 == 0).unwrap();
    }
    v
}

#[test]
fn test_vault_admin_checks() {
    let mut v = MultiYieldVault::new();
    assert_eq!(v.register_pool(pool(0), true), Err(Error::NotInitialized));
    assert_eq!(v.initialize(account(1), account(2), -1, 10_000), Err(Error::InvalidAmount));
    assert_eq!(v.initialize(account(1), account(2), 100, 0), Err(Error::InvalidAmount));
    v.initialize(account(1), account(2), 100, 10_000).unwrap();
    assert_eq!(v.initialize(account(1), account(2), 100, 10_000), Err(Error::AlreadyInitialized));
    v.register_pool(pool(0), true).unwrap();
    assert_eq!(v.register_pool(pool(0), true), Err(Error::PoolAlreadyRegistered));
    for i in 1..MAX_POOLS as u128 {
        v.register_pool(pool(i), false).unwrap();
    }
    assert_eq!(v.register_pool(pool(99), true), Err(Error::TooManyPools));
    assert_eq!(v.get_pools().len(), MAX_POOLS as usize);
}

#[test]
fn test_set_weights_rules() {
    let mut v = vault_with_pools(3);
    let fees = vec![30, 30, 30];
    // Wrong count, over 50%, and not summing to 100% are refused.
    assert_eq!(v.set_weights(&vec![5_000, 5_000], &fees), Err(Error::InvalidWeights));
    assert_eq!(v.set_weights(&vec![6_000, 2_000, 2_000], &fees), Err(Error::InvalidWeights));
    assert_eq!(v.set_weights(&vec![3_000, 3_000, 3_000], &fees), Err(Error::InvalidWeights));
    // A weighted pool must report a positive fee.
    assert_eq!(v.set_weights(&vec![5_000, 5_000, 0], &vec![30, 0, 30]), Err(Error::InvalidWeights));
    v.set_weights(&vec![5_000, 5_000, 0], &vec![30, 30, 0]).unwrap();
    let w: Vec<u32> = v.get_pools().iter().map(|p| p.weight).collect();
    assert_eq!(w, vec![5_000, 5_000, 0]);
}

#[test]
fn test_split_gives_the_remainder_to_the_last_weighted_pool() {
    let pools = vec![
        PoolAllocation { pool: pool(0), lp_shares: 0, deposit_is_a: true, weight: 3_333 },
        PoolAllocation { pool: pool(1), lp_shares: 0, deposit_is_a: true, weight: 3_333 },
        PoolAllocation { pool: pool(2), lp_shares: 0, deposit_is_a: true, weight: 3_334 },
        PoolAllocation { pool: pool(3), lp_shares: 0, deposit_is_a: true, weight: 0 },
    ];
    // 100 * 3333 / 10000 = 33 each; the last weighted pool takes 34.
    assert_eq!(split_by_weight(&pools, 100, 2), Some(vec![33, 33, 34, 0]));
    // The product overflows for a huge amount.
    assert_eq!(split_by_weight(&pools, i128::MAX, 2), None);
}

#[test]
fn test_deposit_withdraw_and_accounting() {
    let mut v = vault_with_pools(2);
    v.set_weights(&vec![5_000, 5_000], &vec![30, 30]).unwrap();
    let this = account(50);
    let user = account(7);
    // Pool 1 has the higher fee, so it takes the whole deposit.
    let fees = vec![30, 50];
    assert_eq!(v.deposit_plan(1_001, &fees), Ok(vec![0, 1_001]));
    // Ties go to the first pool with the highest estimate.
    assert_eq!(v.deposit_plan(1_001, &vec![30, 30]), Ok(vec![1_001, 0]));
    assert_eq!(v.deposit_plan(0, &fees), Err(Error::InvalidAmount));
    assert_eq!(v.deposit_plan(5, &vec![i128::MAX, 1]), Err(Error::Overflow));
    let mut ts: Vec<Transfer> = Vec::new();
    let shares = v.deposit(this, user, 1_001, &fees, &vec![0, 1_001], &mut ts).unwrap();
    assert_eq!(shares, 1_001);
    assert_eq!(v.vault_balance(user), 1_001);
    assert_eq!(v.get_vault().unwrap().total_shares, 1_001);
    assert_eq!(ts, vec![Transfer { token: account(2), from: user, to: this, amount: 1_001 }]);
    assert_eq!(v.get_pools()[0].lp_shares, 0);
    assert_eq!(v.get_pools()[1].lp_shares, 1_001);

    // Withdrawing about half burns that fraction of each pool's LP shares.
    assert_eq!(v.withdraw_plan(user, 2_000), Err(Error::InsufficientShares));
    assert_eq!(v.withdraw_plan(user, 500), Ok(vec![0, 500]));
    let mut ts2: Vec<Transfer> = Vec::new();
    // Pool 1 holds the deposit token as token_b.
    let got = v.withdraw(this, user, 500, &vec![(0, 0), (2, 499)], &mut ts2).unwrap();
    assert_eq!(got, 499);
    assert_eq!(v.vault_balance(user), 501);
    assert_eq!(v.get_vault().unwrap().total_shares, 501);
    assert_eq!(ts2, vec![Transfer { token: account(2), from: this, to: user, amount: 499 }]);
    assert_eq!(v.get_pools()[1].lp_shares, 501);
}

#[test]
fn test_rebalance_with_slippage_check() {
    let mut v = vault_with_pools(2);
    v.set_weights(&vec![5_000, 5_000], &vec![30, 30]).unwrap();
    let mut ts: Vec<Transfer> = Vec::new();
    // Equal fees: the deposit goes to the first pool.
    v.deposit(account(50), account(7), 1_000, &vec![30, 30], &vec![1_000, 0], &mut ts).unwrap();
    // Only the pool holding a position is withdrawn from, all of it.
    assert_eq!(v.unwind_plan(&vec![30, 30]), Ok(Some(vec![(pool(0), 1_000)])));
    assert_eq!(v.unwind_plan(&vec![30, 0]), Err(Error::InvalidWeights));
    // Expected back: min(reserve, lp) less 1% = 990; 980 is too little.
    assert_eq!(v.rebalance_plan(&vec![30, 30], &vec![10_000, 10_000], &vec![980, 0]), Err(Error::SlippageExceeded));
    assert_eq!(
        v.rebalance_plan(&vec![30, 30], &vec![10_000, 10_000], &vec![995, 0]).unwrap(),
        Some((1, 995, vec![497, 498]))
    );
    let r = v.rebalance(&vec![30, 30], &vec![10_000, 10_000], &vec![995, 0], &vec![490, 510]).unwrap();
    assert_eq!(r, Some((1, 995)));
    let lp: Vec<i128> = v.get_pools().iter().map(|p| p.lp_shares).collect();
    assert_eq!(lp, vec![490, 510]);
    // A single pool has nothing to rebalance.
    let mut one = vault_with_pools(1);
    assert_eq!(one.unwind_plan(&vec![30]), Ok(None));
    assert_eq!(one.rebalance(&vec![30], &vec![0], &vec![0], &vec![0]), Ok(None));
}

#[test]
fn test_aprs_and_best_pool() {
    let v = vault_with_pools(3);
    assert_eq!(estimate_apr_bps(30, 10_000), 30);
    assert_eq!(estimate_apr_bps(-30, 5_000), -15);
    assert_eq!(v.get_aprs(&vec![30, 50, 10]), Ok(vec![30, 50, 10]));
    assert_eq!(v.get_aprs(&vec![i128::MAX, 1, 1]), Err(Error::Overflow));
    let state = VaultState { deposit_token: account(2), admin: account(1), total_shares: 0, slippage_bps: 100, volume_proxy_bps: 10_000 };
    assert_eq!(MultiYieldVault::best_pool_idx(&vec![30, 50, 50], &state), 1);
    assert_eq!(MultiYieldVault::best_pool_idx(&vec![-5, -7], &state), 0);
    assert_eq!(Error::InvalidWeights.code(), 10);
}
