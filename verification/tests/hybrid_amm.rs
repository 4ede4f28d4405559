use soroscope::hybrid_amm::{
    deviation_bps, Error, Guards, HybridAmmLob, Order, PoolState, SwapResult, DEFAULT_MAX_MATCH_DEPTH,
    DEFAULT_MAX_PRICE_DEVIATION_BPS, MAX_MATCH_DEPTH_LIMIT, PRICE_SCALE,
};
use soroscope::ledger::{Account, Transfer};

/// Token balances, moved by the transfers the contract orders.
struct Tokens {
    entries: Vec<(Account, Account, i128)>,
}

impl Tokens {
    fn balance(&self, token: &Account, who: &Account) -> i128 {
        self.entries
            .iter()
            .find(|(t, w, _)| t == token && w == who)
            .map(|(_, _, a)| *a)
            .unwrap_or(0)
    }

    fn set(&mut self, token: &Account, who: &Account, amount: i128) {
        match self.entries.iter_mut().find(|(t, w, _)| t == token && w == who) {
            Some(e) => e.2 = amount,
            None => self.entries.push((*token, *who, amount)),
        }
    }

    fn mint(&mut self, token: &Account, to: &Account, amount: i128) {
        let b = self.balance(token, to);
        self.set(token, to, b + amount);
    }

    fn apply(&mut self, transfers: &[Transfer]) {
        for t in transfers {
            let from = self.balance(&t.token, &t.from);
            if from < t.amount {
                panic!("Error(Contract, #10)");
            }
            self.set(&t.token, &t.from, from - t.amount);
            let to = self.balance(&t.token, &t.to);
            self.set(&t.token, &t.to, to + t.amount);
        }
    }
}

/// The pool as a client sees it, with the token contracts and the ledger.
struct Client {
    amm: HybridAmmLob,
    tokens: Tokens,
    this: Account,
    ledger: u32,
}

fn contract_err<T>(e: Error) -> T {
    panic!("Error(Contract, #{})", e.code())
}

impl Client {
    fn run<T>(&mut self, f: impl FnOnce(&mut HybridAmmLob, Account, u32, &mut Vec<Transfer>) -> Result<T, Error>) -> Result<T, Error> {
        let mut transfers = Vec::new();
        let r = f(&mut self.amm, self.this, self.ledger, &mut transfers);
        if r.is_ok() {
            self.tokens.apply(&transfers);
        }
        r
    }

    fn deposit(&mut self, to: &Account, a: i128, b: i128) -> i128 {
        let to = *to;
        self.run(|amm, this, _, ts| amm.deposit(this, to, a, b, ts)).unwrap_or_else(|e| contract_err(e))
    }

    fn withdraw(&mut self, to: &Account, shares: i128) -> (i128, i128) {
        let to = *to;
        self.run(|amm, this, _, ts| amm.withdraw(this, to, shares, ts)).unwrap_or_else(|e| contract_err(e))
    }

    fn place_order(&mut self, maker: &Account, is_bid: bool, price: i128, amount: i128) -> u64 {
        let maker = *maker;
        self.run(|amm, this, _, ts| amm.place_order(this, maker, is_bid, price, amount, ts))
            .unwrap_or_else(|e| contract_err(e))
    }

    fn cancel_order(&mut self, maker: &Account, id: u64) {
        let maker = *maker;
        self.run(|amm, this, _, ts| amm.cancel_order(this, maker, id, ts)).unwrap_or_else(|e| contract_err(e))
    }

    fn try_swap(&mut self, taker: &Account, buy_a: bool, out: i128, in_max: i128) -> Result<SwapResult, Error> {
        let taker = *taker;
        self.run(|amm, this, ledger, ts| amm.swap(this, ledger, taker, buy_a, out, in_max, ts))
    }

    fn swap(&mut self, taker: &Account, buy_a: bool, out: i128, in_max: i128) -> SwapResult {
        self.try_swap(taker, buy_a, out, in_max).unwrap_or_else(|e| contract_err(e))
    }

    fn try_set_guards(&mut self, g: &Guards) -> Result<(), Error> {
        self.amm.set_guards(*g)
    }

    fn set_guards(&mut self, g: &Guards) {
        self.try_set_guards(g).unwrap_or_else(|e| contract_err(e))
    }

    fn get_guards(&self) -> Guards {
        self.amm.get_guards().unwrap_or_else(|e| contract_err(e))
    }

    fn get_pool(&self) -> PoolState {
        self.amm.get_pool().unwrap_or_else(|e| contract_err(e))
    }

    fn get_bids(&self) -> Vec<Order> {
        self.amm.get_bids()
    }

    fn get_asks(&self) -> Vec<Order> {
        self.amm.get_asks()
    }

    fn lp_balance(&self, user: &Account) -> i128 {
        self.amm.lp_balance(*user)
    }

    fn get_match_depth_used(&self) -> u32 {
        self.amm.get_match_depth_used(self.ledger)
    }

    fn get_match_depth_remaining(&self) -> u32 {
        self.amm.get_match_depth_remaining(self.ledger).unwrap_or_else(|e| contract_err(e))
    }

    fn get_spot_price(&self) -> i128 {
        self.amm.get_spot_price().unwrap_or_else(|e| contract_err(e))
    }
}

struct World {
    next: u128,
}

impl World {
    fn default() -> World {
        World { next: 1 }
    }

    fn generate(&mut self) -> Account {
        self.next += 1;
        Account { contract: false, key_hi: 0, key_lo: self.next }
    }

    fn generate_contract(&mut self) -> Account {
        self.next += 1;
        Account { contract: true, key_hi: 0, key_lo: self.next }
    }
}

/// Set up a pool with the default safeguards (depth 8, 5% deviation).
fn setup(e: &mut World) -> (Client, Account, Account, Account, Account) {
    setup_with(e, DEFAULT_MAX_MATCH_DEPTH, DEFAULT_MAX_PRICE_DEVIATION_BPS)
}

fn setup_with(e: &mut World, max_match_depth: u32, max_price_deviation_bps: i128) -> (Client, Account, Account, Account, Account) {
    let admin = e.generate();
    let token_a = e.generate_contract();
    let token_b = e.generate_contract();
    let contract_id = e.generate_contract();
    let mut amm = HybridAmmLob::new();
    amm.initialize(admin, token_a, token_b, 30, 10, Guards { max_match_depth, max_price_deviation_bps })
        .unwrap_or_else(|e| contract_err(e));
    let client = Client { amm, tokens: Tokens { entries: Vec::new() }, this: contract_id, ledger: 0 };
    (client, admin, token_a, token_b, contract_id)
}

fn mint(client: &mut Client, token: &Account, to: &Account, amount: i128) {
    client.tokens.mint(token, to, amount);
}

fn guards(max_match_depth: u32, max_price_deviation_bps: i128) -> Guards {
    Guards { max_match_depth, max_price_deviation_bps }
}

fn balance(client: &Client, token: &Account, who: &Account) -> i128 {
    client.tokens.balance(token, who)
}

/// Place `n` asks of `size` each at the pool's spot price.
fn seed_asks(e: &mut World, client: &mut Client, token_a: &Account, n: u32, size: i128) {
    for _ in 0..n {
        let maker = e.generate();
        mint(client, token_a, &maker, size);
        client.place_order(&maker, false, PRICE_SCALE, size);
    }
}

// ── Liquidity ─────────────────────────────────────────────────────────────────

#[test]
fn test_deposit_and_withdraw() {
    let mut e = World::default();
    let (mut client, _admin, token_a, token_b, _) = setup(&mut e);

    let lp = e.generate();
    mint(&mut client, &token_a, &lp, 10_000);
    mint(&mut client, &token_b, &lp, 10_000);

    let shares = client.deposit(&lp, 1_000, 1_000);
    assert_eq!(shares, 1_000); // sqrt(1000*1000)
    assert_eq!(client.lp_balance(&lp), 1_000);

    let (out_a, out_b) = client.withdraw(&lp, 500);
    assert_eq!(out_a, 500);
    assert_eq!(out_b, 500);
    assert_eq!(client.lp_balance(&lp), 500);
}

#[test]
#[should_panic(expected = "Error(Contract, #8)")]
fn test_withdraw_too_many_shares() {
    let mut e = World::default();
    let (mut client, _admin, token_a, token_b, _) = setup(&mut e);

    let lp = e.generate();
    mint(&mut client, &token_a, &lp, 1_000);
    mint(&mut client, &token_b, &lp, 1_000);
    client.deposit(&lp, 1_000, 1_000);
    client.withdraw(&lp, 2_000); // more than owned
}

// ── Order placement & priority sorting ───────────────────────────────────────

#[test]
fn test_ask_priority_sorting() {
    let mut e = World::default();
    let (mut client, _admin, token_a, _token_b, _) = setup(&mut e);

    let maker1 = e.generate();
    let maker2 = e.generate();
    let maker3 = e.generate();
    mint(&mut client, &token_a, &maker1, 1_000);
    mint(&mut client, &token_a, &maker2, 1_000);
    mint(&mut client, &token_a, &maker3, 1_000);

    // Place asks at prices 1.2, 1.0, 1.1 (should sort ascending: 1.0, 1.1, 1.2)
    client.place_order(&maker1, false, 12 * PRICE_SCALE / 10, 100);
    client.place_order(&maker2, false, 10 * PRICE_SCALE / 10, 100);
    client.place_order(&maker3, false, 11 * PRICE_SCALE / 10, 100);

    let asks = client.get_asks();
    assert_eq!(asks.len(), 3);
    assert!(asks[0].price <= asks[1].price);
    assert!(asks[1].price <= asks[2].price);
}

#[test]
fn test_bid_priority_sorting() {
    let mut e = World::default();
    let (mut client, _admin, _token_a, token_b, _) = setup(&mut e);

    let maker1 = e.generate();
    let maker2 = e.generate();
    mint(&mut client, &token_b, &maker1, 10_000);
    mint(&mut client, &token_b, &maker2, 10_000);

    // Place bids at prices 0.9 and 1.1 (should sort descending: 1.1, 0.9)
    client.place_order(&maker1, true, 9 * PRICE_SCALE / 10, 100);
    client.place_order(&maker2, true, 11 * PRICE_SCALE / 10, 100);

    let bids = client.get_bids();
    assert_eq!(bids.len(), 2);
    assert!(bids[0].price >= bids[1].price);
}

// ── Cancel order ──────────────────────────────────────────────────────────────

#[test]
fn test_cancel_ask() {
    let mut e = World::default();
    let (mut client, _admin, token_a, _, _) = setup(&mut e);

    let maker = e.generate();
    mint(&mut client, &token_a, &maker, 1_000);

    let id = client.place_order(&maker, false, PRICE_SCALE, 500);
    assert_eq!(client.get_asks().len(), 1);

    client.cancel_order(&maker, id);
    assert_eq!(client.get_asks().len(), 0);

    // Token refunded
    let bal = balance(&client, &token_a, &maker);
    assert_eq!(bal, 1_000);
}

#[test]
#[should_panic(expected = "Error(Contract, #9)")]
fn test_cancel_unauthorized() {
    let mut e = World::default();
    let (mut client, _admin, token_a, _, _) = setup(&mut e);

    let maker = e.generate();
    let attacker = e.generate();
    mint(&mut client, &token_a, &maker, 1_000);

    let id = client.place_order(&maker, false, PRICE_SCALE, 500);
    client.cancel_order(&attacker, id); // should panic
}

// ── LOB fill ──────────────────────────────────────────────────────────────────

#[test]
fn test_swap_fully_filled_by_lob() {
    let mut e = World::default();
    let (mut client, _admin, token_a, token_b, _) = setup(&mut e);

    // Maker places ask: sell 200 token_a at price 1.0 (1 token_b per token_a).
    let maker = e.generate();
    mint(&mut client, &token_a, &maker, 200);
    client.place_order(&maker, false, PRICE_SCALE, 200);

    // Taker buys 100 token_a.
    let taker = e.generate();
    mint(&mut client, &token_b, &taker, 10_000);

    let result = client.swap(&taker, true, 100, 200);

    assert_eq!(result.lob_filled, 100);
    assert_eq!(result.amm_filled, 0);
    // Taker received 100 token_a
    let ta_bal = balance(&client, &token_a, &taker);
    assert_eq!(ta_bal, 100);
    // 1 ask still has 100 remaining
    assert_eq!(client.get_asks()[0].amount, 100);
}

// ── AMM fallback ──────────────────────────────────────────────────────────────

#[test]
fn test_swap_amm_fallback_when_no_orders() {
    let mut e = World::default();
    let (mut client, _admin, token_a, token_b, _) = setup(&mut e);

    // Seed AMM liquidity.
    let lp = e.generate();
    mint(&mut client, &token_a, &lp, 10_000);
    mint(&mut client, &token_b, &lp, 10_000);
    client.deposit(&lp, 10_000, 10_000);

    let taker = e.generate();
    mint(&mut client, &token_b, &taker, 5_000);

    let result = client.swap(&taker, true, 100, 200);

    assert_eq!(result.lob_filled, 0);
    assert_eq!(result.amm_filled, 100);
    assert!(result.amount_in > 0 && result.amount_in <= 200);
}

// ── Hybrid fill (LOB + AMM) ───────────────────────────────────────────────────

#[test]
fn test_swap_hybrid_lob_then_amm() {
    let mut e = World::default();
    let (mut client, _admin, token_a, token_b, _) = setup(&mut e);

    // Seed AMM.
    let lp = e.generate();
    mint(&mut client, &token_a, &lp, 10_000);
    mint(&mut client, &token_b, &lp, 10_000);
    client.deposit(&lp, 10_000, 10_000);

    // Maker places ask for only 50 token_a.
    let maker = e.generate();
    mint(&mut client, &token_a, &maker, 50);
    client.place_order(&maker, false, PRICE_SCALE, 50);

    // Taker wants 150 token_a: 50 from LOB, 100 from AMM.
    let taker = e.generate();
    mint(&mut client, &token_b, &taker, 5_000);

    let result = client.swap(&taker, true, 150, 500);

    assert_eq!(result.lob_filled, 50);
    assert_eq!(result.amm_filled, 100);
    assert_eq!(result.amount_out, 150);
    // LOB order fully consumed.
    assert_eq!(client.get_asks().len(), 0);
}

// ── Slippage guard ────────────────────────────────────────────────────────────

#[test]
#[should_panic(expected = "Error(Contract, #6)")]
fn test_test_swap_slippage_exceeded() {
    let mut e = World::default();
    let (mut client, _admin, token_a, token_b, _) = setup(&mut e);

    let lp = e.generate();
    mint(&mut client, &token_a, &lp, 10_000);
    mint(&mut client, &token_b, &lp, 10_000);
    client.deposit(&lp, 10_000, 10_000);

    let taker = e.generate();
    mint(&mut client, &token_b, &taker, 5_000);

    // in_max = 1 is impossibly tight.
    client.swap(&taker, true, 100, 1);
}

// ── Fee distribution ──────────────────────────────────────────────────────────

#[test]
fn test_lp_fee_accrues_in_reserves() {
    let mut e = World::default();
    let (mut client, _admin, token_a, token_b, _) = setup(&mut e);

    let lp = e.generate();
    mint(&mut client, &token_a, &lp, 10_000);
    mint(&mut client, &token_b, &lp, 10_000);
    client.deposit(&lp, 10_000, 10_000);

    let pool_before = client.get_pool();

    let taker = e.generate();
    mint(&mut client, &token_b, &taker, 5_000);
    client.swap(&taker, true, 100, 500);

    let pool_after = client.get_pool();
    // reserve_b increased by more than the spot price (fee stayed in pool).
    assert!(pool_after.reserve_b > pool_before.reserve_b);
    // reserve_a decreased by exactly the output.
    assert_eq!(pool_before.reserve_a - pool_after.reserve_a, 100);
}

#[test]
fn test_maker_fee_is_a_premium_on_taker_input() {
    let mut e = World::default();
    let (mut client, _admin, token_a, token_b, _) = setup(&mut e);

    // No AMM liquidity, so the price band is inactive and only the LOB fills.
    let maker = e.generate();
    mint(&mut client, &token_a, &maker, 10_000);
    client.place_order(&maker, false, PRICE_SCALE, 10_000);

    let taker = e.generate();
    mint(&mut client, &token_b, &taker, 100_000);

    // 10_000 token_a at 1.0 costs 10_000 token_b, plus 10 bps = 10.
    let result = client.swap(&taker, true, 10_000, 20_000);

    assert_eq!(result.amount_in, 10_010);
    assert_eq!(result.amount_out, 10_000);
    // The taker still receives exactly the requested output.
    assert_eq!(balance(&client, &token_a, &taker), 10_000);
    // The maker keeps the premium; nothing is stranded in the contract.
    assert_eq!(balance(&client, &token_b, &maker), 10_010);
}

#[test]
fn test_bid_side_lob_fill() {
    let mut e = World::default();
    let (mut client, _admin, token_a, token_b, _) = setup(&mut e);

    // Maker bids for 10_000 token_a at 1.0, escrowing 10_000 token_b.
    let maker = e.generate();
    mint(&mut client, &token_b, &maker, 10_000);
    client.place_order(&maker, true, PRICE_SCALE, 10_000);

    // Taker sells token_a to receive 10_000 token_b.
    let taker = e.generate();
    mint(&mut client, &token_a, &taker, 100_000);

    let result = client.swap(&taker, false, 10_000, 20_000);

    assert_eq!(result.lob_filled, 10_000);
    assert_eq!(result.amm_filled, 0);
    assert_eq!(result.amount_in, 10_010); // 10_000 + 10 bps premium
    assert_eq!(balance(&client, &token_b, &taker), 10_000);
    assert_eq!(balance(&client, &token_a, &maker), 10_010);
    assert_eq!(client.get_bids().len(), 0);
}

// ── Safeguard: execution depth limit ─────────────────────────────────────────

#[test]
fn test_match_depth_caps_book_consumption() {
    let mut e = World::default();
    let (mut client, _admin, token_a, token_b, _) = setup_with(&mut e, 2, DEFAULT_MAX_PRICE_DEVIATION_BPS);

    // Deep AMM liquidity so the remainder can be priced without tripping the
    // deviation guard, isolating the depth cap.
    let lp = e.generate();
    mint(&mut client, &token_a, &lp, 1_000_000);
    mint(&mut client, &token_b, &lp, 1_000_000);
    client.deposit(&lp, 1_000_000, 1_000_000);

    seed_asks(&mut e, &mut client, &token_a, 3, 50);

    let taker = e.generate();
    mint(&mut client, &token_b, &taker, 100_000);

    // 150 output would need all three orders; only two may be consumed, so the
    // last 50 comes from the AMM instead of cascading deeper into the book.
    let result = client.swap(&taker, true, 150, 100_000);

    assert_eq!(result.lob_filled, 100);
    assert_eq!(result.amm_filled, 50);
    assert_eq!(client.get_match_depth_used(), 2);
    // The third order is untouched and still resting.
    assert_eq!(client.get_asks().len(), 1);
}

#[test]
fn test_match_depth_survives_an_exhausted_budget() {
    let mut e = World::default();
    let (mut client, _admin, token_a, token_b, _) = setup_with(&mut e, 2, DEFAULT_MAX_PRICE_DEVIATION_BPS);

    let lp = e.generate();
    mint(&mut client, &token_a, &lp, 1_000_000);
    mint(&mut client, &token_b, &lp, 1_000_000);
    client.deposit(&lp, 1_000_000, 1_000_000);

    seed_asks(&mut e, &mut client, &token_a, 3, 50);

    let taker = e.generate();
    mint(&mut client, &token_b, &taker, 100_000);

    client.swap(&taker, true, 100, 100_000);
    assert_eq!(client.get_match_depth_remaining(), 0);

    // An exhausted budget must not make the pool unswappable: a later swap in
    // the same ledger still clears via the AMM even though the book has a
    // matchable order resting.
    assert_eq!(client.get_asks().len(), 1);
    let result = client.swap(&taker, true, 50, 100_000);
    assert_eq!(result.lob_filled, 0);
    assert_eq!(result.amm_filled, 50);
    assert_eq!(client.get_asks().len(), 1);
}

#[test]
fn test_match_depth_allows_swap_within_budget() {
    let mut e = World::default();
    let (mut client, _admin, token_a, token_b, _) = setup_with(&mut e, 3, DEFAULT_MAX_PRICE_DEVIATION_BPS);

    seed_asks(&mut e, &mut client, &token_a, 3, 50);

    let taker = e.generate();
    mint(&mut client, &token_b, &taker, 10_000);

    let result = client.swap(&taker, true, 150, 10_000);

    assert_eq!(result.lob_filled, 150);
    assert_eq!(result.amm_filled, 0);
    assert_eq!(client.get_match_depth_used(), 3);
    assert_eq!(client.get_match_depth_remaining(), 0);
}

#[test]
fn test_match_depth_accumulates_across_swaps_in_one_ledger() {
    let mut e = World::default();
    let (mut client, _admin, token_a, token_b, _) = setup_with(&mut e, 2, DEFAULT_MAX_PRICE_DEVIATION_BPS);

    let lp = e.generate();
    mint(&mut client, &token_a, &lp, 1_000_000);
    mint(&mut client, &token_b, &lp, 1_000_000);
    client.deposit(&lp, 1_000_000, 1_000_000);

    seed_asks(&mut e, &mut client, &token_a, 3, 50);

    let taker = e.generate();
    mint(&mut client, &token_b, &taker, 100_000);

    // First swap consumes the full budget for this ledger.
    client.swap(&taker, true, 100, 100_000);
    assert_eq!(client.get_match_depth_used(), 2);

    // Splitting into a second call in the same ledger must not buy more depth,
    // so the third resting order stays untouched.
    let result = client.swap(&taker, true, 50, 100_000);
    assert_eq!(result.lob_filled, 0);
    assert_eq!(client.get_match_depth_used(), 2);
    assert_eq!(client.get_asks().len(), 1);
}

#[test]
fn test_match_depth_resets_on_new_ledger() {
    let mut e = World::default();
    let (mut client, _admin, token_a, token_b, _) = setup_with(&mut e, 2, DEFAULT_MAX_PRICE_DEVIATION_BPS);

    seed_asks(&mut e, &mut client, &token_a, 3, 50);

    let taker = e.generate();
    mint(&mut client, &token_b, &taker, 10_000);

    client.swap(&taker, true, 100, 10_000);
    assert_eq!(client.get_match_depth_used(), 2);

    // Next ledger: the budget is replenished.
    let seq = client.ledger;
    client.ledger = seq + 1;
    assert_eq!(client.get_match_depth_used(), 0);

    let result = client.swap(&taker, true, 50, 10_000);
    assert_eq!(result.lob_filled, 50);
    assert_eq!(client.get_match_depth_used(), 1);
}

#[test]
fn test_match_depth_does_not_block_pure_amm_swap() {
    let mut e = World::default();
    let (mut client, _admin, token_a, token_b, _) = setup_with(&mut e, 1, DEFAULT_MAX_PRICE_DEVIATION_BPS);

    let lp = e.generate();
    mint(&mut client, &token_a, &lp, 100_000);
    mint(&mut client, &token_b, &lp, 100_000);
    client.deposit(&lp, 100_000, 100_000);

    seed_asks(&mut e, &mut client, &token_a, 1, 50);

    let taker = e.generate();
    mint(&mut client, &token_b, &taker, 10_000);

    // Spends the whole depth budget on the single resting order.
    client.swap(&taker, true, 50, 10_000);
    assert_eq!(client.get_match_depth_remaining(), 0);

    // The book is empty now, so this swap never touches the depth guard.
    let result = client.swap(&taker, true, 50, 10_000);
    assert_eq!(result.lob_filled, 0);
    assert_eq!(result.amm_filled, 50);
}

#[test]
fn test_depth_cap_without_amm_liquidity_reverts_cleanly() {
    let mut e = World::default();
    let (mut client, _admin, token_a, token_b, _) = setup_with(&mut e, 2, DEFAULT_MAX_PRICE_DEVIATION_BPS);

    // No AMM to absorb the remainder, so the capped swap cannot complete.
    seed_asks(&mut e, &mut client, &token_a, 3, 50);

    let taker = e.generate();
    mint(&mut client, &token_b, &taker, 10_000);

    let res = client.try_swap(&taker, true, 150, 10_000);
    assert!(res.is_err());

    // No partial fill survived: the taker paid nothing and the book is intact.
    assert_eq!(balance(&client, &token_b, &taker), 10_000);
    assert_eq!(balance(&client, &token_a, &taker), 0);
    assert_eq!(client.get_asks().len(), 3);
    assert_eq!(client.get_match_depth_used(), 0);
}

// ── Safeguard: limit-order price band ────────────────────────────────────────

#[test]
fn test_lob_order_outside_price_band_is_skipped() {
    let mut e = World::default();
    // 5% tolerance against a 1.0 spot price.
    let (mut client, _admin, token_a, token_b, _) = setup_with(&mut e, 8, 500);

    let lp = e.generate();
    mint(&mut client, &token_a, &lp, 100_000);
    mint(&mut client, &token_b, &lp, 100_000);
    client.deposit(&lp, 100_000, 100_000);
    assert_eq!(client.get_spot_price(), PRICE_SCALE);

    // Ask priced at 2.0 — 100% above spot, far outside the band.
    let maker = e.generate();
    mint(&mut client, &token_a, &maker, 100);
    client.place_order(&maker, false, 2 * PRICE_SCALE, 100);

    let taker = e.generate();
    mint(&mut client, &token_b, &taker, 10_000);

    let result = client.swap(&taker, true, 100, 10_000);

    // The out-of-band order was ignored; the AMM priced the whole swap.
    assert_eq!(result.lob_filled, 0);
    assert_eq!(result.amm_filled, 100);
    assert_eq!(client.get_asks().len(), 1);
    assert_eq!(client.get_match_depth_used(), 0);
}

#[test]
fn test_lob_order_inside_price_band_is_matched() {
    let mut e = World::default();
    let (mut client, _admin, token_a, token_b, _) = setup_with(&mut e, 8, 500);

    let lp = e.generate();
    mint(&mut client, &token_a, &lp, 100_000);
    mint(&mut client, &token_b, &lp, 100_000);
    client.deposit(&lp, 100_000, 100_000);

    // Ask at 1.02 — 200 bps above spot, inside the 500 bps band.
    let maker = e.generate();
    mint(&mut client, &token_a, &maker, 100);
    client.place_order(&maker, false, 102 * PRICE_SCALE / 100, 100);

    let taker = e.generate();
    mint(&mut client, &token_b, &taker, 10_000);

    let result = client.swap(&taker, true, 100, 10_000);

    assert_eq!(result.lob_filled, 100);
    assert_eq!(result.amm_filled, 0);
    assert_eq!(client.get_asks().len(), 0);
}

#[test]
fn test_bid_outside_price_band_is_skipped() {
    let mut e = World::default();
    let (mut client, _admin, token_a, token_b, _) = setup_with(&mut e, 8, 500);

    let lp = e.generate();
    mint(&mut client, &token_a, &lp, 100_000);
    mint(&mut client, &token_b, &lp, 100_000);
    client.deposit(&lp, 100_000, 100_000);

    // Bid at 0.5 — 50% below spot, far outside the band.
    let maker = e.generate();
    mint(&mut client, &token_b, &maker, 10_000);
    client.place_order(&maker, true, PRICE_SCALE / 2, 100);

    let taker = e.generate();
    mint(&mut client, &token_a, &taker, 10_000);

    let result = client.swap(&taker, false, 100, 10_000);

    assert_eq!(result.lob_filled, 0);
    assert_eq!(result.amm_filled, 100);
    assert_eq!(client.get_bids().len(), 1);
}

#[test]
fn test_price_band_inactive_without_pool_reference() {
    let mut e = World::default();
    let (mut client, _admin, token_a, token_b, _) = setup_with(&mut e, 8, 500);

    // No AMM liquidity at all, so there is no reference price to band against
    // and the book remains fully usable.
    let maker = e.generate();
    mint(&mut client, &token_a, &maker, 100);
    client.place_order(&maker, false, 5 * PRICE_SCALE, 100);

    let taker = e.generate();
    mint(&mut client, &token_b, &taker, 10_000);

    let result = client.swap(&taker, true, 100, 10_000);
    assert_eq!(result.lob_filled, 100);
}

// ── Safeguard: pool price deviation ──────────────────────────────────────────

#[test]
#[should_panic(expected = "Error(Contract, #10)")]
fn test_amm_swap_beyond_deviation_tolerance_reverts() {
    let mut e = World::default();
    // 1% tolerance on a deliberately thin pool.
    let (mut client, _admin, token_a, token_b, _) = setup_with(&mut e, 8, 100);

    let lp = e.generate();
    mint(&mut client, &token_a, &lp, 1_000);
    mint(&mut client, &token_b, &lp, 1_000);
    client.deposit(&lp, 1_000, 1_000);

    let taker = e.generate();
    mint(&mut client, &token_b, &taker, 100_000);

    // Taking 10% of the reserve moves spot ~23%, well past the 1% tolerance.
    client.swap(&taker, true, 100, 100_000);
}

#[test]
fn test_amm_swap_within_deviation_tolerance_succeeds() {
    let mut e = World::default();
    let (mut client, _admin, token_a, token_b, _) = setup_with(&mut e, 8, 500);

    let lp = e.generate();
    mint(&mut client, &token_a, &lp, 100_000);
    mint(&mut client, &token_b, &lp, 100_000);
    client.deposit(&lp, 100_000, 100_000);

    let taker = e.generate();
    mint(&mut client, &token_b, &taker, 100_000);

    // 0.1% of the reserve barely moves the price.
    let result = client.swap(&taker, true, 100, 100_000);
    assert_eq!(result.amm_filled, 100);
}

#[test]
fn test_deviation_rejection_leaves_reserves_untouched() {
    let mut e = World::default();
    let (mut client, _admin, token_a, token_b, _) = setup_with(&mut e, 8, 100);

    let lp = e.generate();
    mint(&mut client, &token_a, &lp, 1_000);
    mint(&mut client, &token_b, &lp, 1_000);
    client.deposit(&lp, 1_000, 1_000);

    let before = client.get_pool();

    let taker = e.generate();
    mint(&mut client, &token_b, &taker, 100_000);
    let res = client.try_swap(&taker, true, 100, 100_000);
    assert!(res.is_err());

    let after = client.get_pool();
    assert_eq!(before.reserve_a, after.reserve_a);
    assert_eq!(before.reserve_b, after.reserve_b);
    assert_eq!(balance(&client, &token_b, &taker), 100_000);
    assert_eq!(client.get_spot_price(), PRICE_SCALE);
}

#[test]
fn test_raising_tolerance_admits_the_same_swap() {
    let mut e = World::default();
    let (mut client, _admin, token_a, token_b, _) = setup_with(&mut e, 8, 100);

    let lp = e.generate();
    mint(&mut client, &token_a, &lp, 1_000);
    mint(&mut client, &token_b, &lp, 1_000);
    client.deposit(&lp, 1_000, 1_000);

    let taker = e.generate();
    mint(&mut client, &token_b, &taker, 100_000);
    assert!(client.try_swap(&taker, true, 100, 100_000).is_err());

    // Admin widens the band; the previously rejected swap now clears.
    client.set_guards(&guards(8, 5_000));
    let result = client.swap(&taker, true, 100, 100_000);
    assert_eq!(result.amm_filled, 100);
}

// ── Guard configuration ──────────────────────────────────────────────────────

#[test]
fn test_initialize_stores_guards() {
    let mut e = World::default();
    let (client, _, _, _, _) = setup_with(&mut e, 5, 250);

    let stored = client.get_guards();
    assert_eq!(stored.max_match_depth, 5);
    assert_eq!(stored.max_price_deviation_bps, 250);
    assert_eq!(client.get_match_depth_remaining(), 5);
}

#[test]
#[should_panic(expected = "Error(Contract, #11)")]
fn test_initialize_rejects_zero_depth() {
    let mut e = World::default();
    setup_with(&mut e, 0, 500);
}

#[test]
#[should_panic(expected = "Error(Contract, #11)")]
fn test_initialize_rejects_depth_above_hard_limit() {
    let mut e = World::default();
    setup_with(&mut e, MAX_MATCH_DEPTH_LIMIT + 1, 500);
}

#[test]
#[should_panic(expected = "Error(Contract, #11)")]
fn test_initialize_rejects_zero_deviation() {
    let mut e = World::default();
    setup_with(&mut e, 8, 0);
}

#[test]
#[should_panic(expected = "Error(Contract, #11)")]
fn test_initialize_rejects_deviation_above_100_percent() {
    let mut e = World::default();
    setup_with(&mut e, 8, 10_001);
}

#[test]
fn test_set_guards_updates_pool() {
    let mut e = World::default();
    let (mut client, _, _, _, _) = setup(&mut e);

    client.set_guards(&guards(16, 1_000));

    let stored = client.get_guards();
    assert_eq!(stored.max_match_depth, 16);
    assert_eq!(stored.max_price_deviation_bps, 1_000);
}

#[test]
#[should_panic(expected = "Error(Contract, #11)")]
fn test_set_guards_rejects_invalid_depth() {
    let mut e = World::default();
    let (mut client, _, _, _, _) = setup(&mut e);
    client.set_guards(&guards(MAX_MATCH_DEPTH_LIMIT + 1, 500));
}

// ── Further checks of the verified contract ──────────────────────────────────

#[test]
fn test_exact_output_law_on_concrete_swap() {
    // The taker receives exactly the requested output and pays at most in_max.
    let mut e = World::default();
    let (mut client, _admin, token_a, token_b, _) = setup(&mut e);
    let lp = e.generate();
    mint(&mut client, &token_a, &lp, 10_000);
    mint(&mut client, &token_b, &lp, 10_000);
    client.deposit(&lp, 10_000, 10_000);
    let taker = e.generate();
    mint(&mut client, &token_b, &taker, 5_000);
    let before_b = balance(&client, &token_b, &taker);
    let r = client.swap(&taker, true, 100, 200);
    assert_eq!(r.amount_out, 100);
    assert_eq!(r.lob_filled + r.amm_filled, r.amount_out);
    assert_eq!(balance(&client, &token_a, &taker), 100);
    assert_eq!(before_b - balance(&client, &token_b, &taker), r.amount_in);
    assert!(r.amount_in <= 200);
}

#[test]
fn test_error_codes_of_amm() {
    assert_eq!(Error::AlreadyInitialized.code(), 1);
    assert_eq!(Error::NotInitialized.code(), 2);
    assert_eq!(Error::InvalidAmount.code(), 3);
    assert_eq!(Error::InvalidPrice.code(), 4);
    assert_eq!(Error::OrderNotFound.code(), 5);
    assert_eq!(Error::SlippageExceeded.code(), 6);
    assert_eq!(Error::InsufficientLiquidity.code(), 7);
    assert_eq!(Error::InsufficientShares.code(), 8);
    assert_eq!(Error::Unauthorized.code(), 9);
    assert_eq!(Error::PriceDeviationExceeded.code(), 10);
    assert_eq!(Error::InvalidConfig.code(), 11);
}

#[test]
fn test_amm_errors_for_bad_inputs() {
    let mut e = World::default();
    let (mut client, admin, token_a, token_b, _) = setup(&mut e);
    // Initializing twice is refused.
    let again = client.amm.initialize(admin, token_a, token_b, 30, 10, guards(8, 500));
    assert_eq!(again, Err(Error::AlreadyInitialized));
    let maker = e.generate();
    mint(&mut client, &token_a, &maker, 1_000);
    // A zero price or amount is refused.
    let mut ts = Vec::new();
    assert_eq!(client.amm.place_order(client.this, maker, false, 0, 10, &mut ts), Err(Error::InvalidPrice));
    assert_eq!(client.amm.place_order(client.this, maker, false, PRICE_SCALE, 0, &mut ts), Err(Error::InvalidAmount));
    // Cancelling an unknown order is refused.
    assert_eq!(client.amm.cancel_order(client.this, maker, 99, &mut ts), Err(Error::OrderNotFound));
    assert!(ts.is_empty());
    // A swap with nothing to fill it is refused.
    let taker = e.generate();
    mint(&mut client, &token_b, &taker, 1_000);
    assert_eq!(client.try_swap(&taker, true, 10, 1_000), Err(Error::InsufficientLiquidity));
    // An uninitialized pool reports so.
    let fresh = HybridAmmLob::new();
    assert_eq!(fresh.get_pool(), Err(Error::NotInitialized));
}

#[test]
fn amm_swaps_never_lower_the_reserve_product() {
    let mut e = World::default();
    let (mut client, _admin, token_a, token_b, _) = setup(&mut e);

    let lp = e.generate();
    mint(&mut client, &token_a, &lp, 10_000);
    mint(&mut client, &token_b, &lp, 10_000);
    client.deposit(&lp, 10_000, 10_000);

    let taker = e.generate();
    mint(&mut client, &token_a, &taker, 5_000);
    mint(&mut client, &token_b, &taker, 5_000);
    let mut product = {
        let p = client.get_pool();
        p.reserve_a * p.reserve_b
    };
    for (buy_a, out) in [(true, 100), (false, 150), (true, 1), (false, 7)] {
        client.swap(&taker, buy_a, out, 5_000);
        let p = client.get_pool();
        let next = p.reserve_a * p.reserve_b;
        assert!(next > product);
        product = next;
    }
}

#[test]
fn deviation_is_symmetric_and_defined_for_any_price() {
    assert_eq!(deviation_bps(1_020_000, 1_000_000), Ok(200));
    assert_eq!(deviation_bps(980_000, 1_000_000), Ok(200));
    assert_eq!(deviation_bps(-500, 1_000), Ok(15_000));
    assert_eq!(deviation_bps(2_500, 1_000), Ok(15_000));
    assert_eq!(deviation_bps(i128::MAX / 2, 1), Err(Error::InvalidPrice));
}
