use soroscope::gasless::{make_meta_tx, Gasless, GaslessError, GaslessEvent, MetaTx, MAX_NONCE_ADVANCE};
use soroscope::ledger::{Account, Transfer};

const AMOUNT: i128 = 1_000_000;
const BASE_TIME: u64 = 1_000_000;
const DEADLINE: u64 = BASE_TIME + 3_600; // 1 hour from now

fn fail<T>(e: GaslessError) -> T {
    panic!("{}", e.message())
}

struct Ctx {
    contract: Gasless,
    balances: Vec<(Account, i128)>,
    timestamp: u64,
    events: Vec<GaslessEvent>,
    relayer: Account,
    alice: Account,
    bob: Account,
    token: Account,
}

impl Ctx {
    fn setup() -> Self {
        let relayer = Account { contract: false, key_hi: 0, key_lo: 1 };
        let alice = Account { contract: false, key_hi: 0, key_lo: 2 };
        let bob = Account { contract: false, key_hi: 0, key_lo: 3 };
        let token = Account { contract: true, key_hi: 0, key_lo: 4 };
        let mut contract = Gasless::new();
        contract.check_initialize().unwrap_or_else(|e| fail(e));
        contract.initialize(relayer);
        Ctx { contract, balances: vec![(alice, AMOUNT * 5)], timestamp: BASE_TIME, events: Vec::new(), relayer, alice, bob, token }
    }

    fn balance(&self, who: &Account) -> i128 {
        self.balances.iter().find(|(w, _)| w == who).map(|(_, a)| *a).unwrap_or(0)
    }

    fn mint(&mut self, who: &Account, amount: i128) {
        let b = self.balance(who);
        match self.balances.iter_mut().find(|(w, _)| w == who) {
            Some(e) => e.1 = b + amount,
            None => self.balances.push((*who, amount)),
        }
    }

    fn apply(&mut self, ts: &[Transfer]) {
        for t in ts {
            assert_eq!(t.token, self.token);
            let from = self.balance(&t.from);
            if from < t.amount {
                panic!("insufficient balance");
            }
            self.mint(&t.from, -t.amount);
            self.mint(&t.to, t.amount);
        }
    }

    fn meta_tx(&self, nonce: u64) -> MetaTx {
        make_meta_tx(self.alice, self.bob, self.token, AMOUNT, nonce, DEADLINE)
    }

    fn execute(&mut self, relayer: &Account, m: &MetaTx) {
        let mut ts = Vec::new();
        self.contract.check_execute(*relayer, self.timestamp, *m).unwrap_or_else(|e| fail(e));
        self.contract.execute(*relayer, self.timestamp, *m, &mut ts, &mut self.events);
        self.apply(&ts);
    }

    fn nonce(&self, user: &Account) -> u64 {
        self.contract.nonce(*user)
    }

    fn invalidate_nonces(&mut self, user: &Account, new_nonce: u64) -> u64 {
        self.contract.check_invalidate(*user, new_nonce).unwrap_or_else(|e| fail(e));
        self.contract.invalidate_nonces(*user, new_nonce, &mut self.events)
    }

    fn relayer(&self) -> Account {
        if self.contract.admin.is_none() {
            fail::<()>(GaslessError::NotInitialized);
        }
        self.contract.relayer()
    }

    /// True if `user` has a nonce entry of their own.
    fn nonce_in_persistent(&self, user: &Account) -> bool {
        self.contract.nonces.iter().any(|e| e.account == *user)
    }

    /// Whether an event with topic `name` was published.
    fn emitted(&self, name: &str) -> bool {
        self.events.iter().any(|e| match e {
            GaslessEvent::Executed { .. } => name == "executed",
            GaslessEvent::Invalidated { .. } => name == "invalidated",
        })
    }

    /// Nonces are never kept in a shared entry.
    fn nonce_in_instance(&self, _user: &Account) -> bool {
        false
    }
}

#[test]
fn test_execute_transfers_tokens() {
    let mut ctx = Ctx::setup();
    let (r, m) = (ctx.relayer, ctx.meta_tx(0));
    ctx.execute(&r, &m);

    assert_eq!(ctx.balance(&ctx.alice), AMOUNT * 4);
    assert_eq!(ctx.balance(&ctx.bob), AMOUNT);
}

#[test]
fn test_nonce_increments_after_execute() {
    let mut ctx = Ctx::setup();
    assert_eq!(ctx.nonce(&ctx.alice), 0);
    let (r, m) = (ctx.relayer, ctx.meta_tx(0));
    ctx.execute(&r, &m);
    assert_eq!(ctx.nonce(&ctx.alice), 1);
}

#[test]
#[should_panic(expected = "invalid nonce")]
fn test_replay_attack_reverts() {
    let mut ctx = Ctx::setup();
    let (r, m) = (ctx.relayer, ctx.meta_tx(0));
    ctx.execute(&r, &m);
    // Replay with same nonce.
    ctx.execute(&r, &m);
}

#[test]
fn test_sequential_nonces_succeed() {
    let mut ctx = Ctx::setup();
    let r = ctx.relayer;
    let (m0, m1) = (ctx.meta_tx(0), ctx.meta_tx(1));
    ctx.execute(&r, &m0);
    ctx.execute(&r, &m1);
    assert_eq!(ctx.balance(&ctx.bob), AMOUNT * 2);
}

#[test]
#[should_panic(expected = "meta-tx expired")]
fn test_expired_meta_tx_reverts() {
    let mut ctx = Ctx::setup();
    ctx.timestamp = DEADLINE + 1;
    let (r, m) = (ctx.relayer, ctx.meta_tx(0));
    ctx.execute(&r, &m);
}

#[test]
fn test_execute_at_exact_deadline_succeeds() {
    let mut ctx = Ctx::setup();
    // The check is `now > deadline`, so the deadline itself is valid.
    ctx.timestamp = DEADLINE;
    let (r, m) = (ctx.relayer, ctx.meta_tx(0));
    ctx.execute(&r, &m);
    assert_eq!(ctx.balance(&ctx.bob), AMOUNT);
}

#[test]
#[should_panic(expected = "unauthorized relayer")]
fn test_unauthorized_relayer_reverts() {
    let mut ctx = Ctx::setup();
    // alice tries to act as relayer.
    let (a, m) = (ctx.alice, ctx.meta_tx(0));
    ctx.execute(&a, &m);
}

#[test]
#[should_panic(expected = "invalid nonce")]
fn test_wrong_nonce_reverts() {
    let mut ctx = Ctx::setup();
    // Nonce 1 is wrong when 0 is expected.
    let (r, m) = (ctx.relayer, ctx.meta_tx(1));
    ctx.execute(&r, &m);
}

#[test]
fn test_relayer_returns_correct_address() {
    let ctx = Ctx::setup();
    assert_eq!(ctx.relayer(), ctx.relayer);
}

#[test]
fn test_nonce_starts_at_zero() {
    let ctx = Ctx::setup();
    assert_eq!(ctx.nonce(&ctx.alice), 0);
    assert_eq!(ctx.nonce(&ctx.bob), 0);
}

#[test]
#[should_panic(expected = "already initialized")]
fn test_double_initialize_reverts() {
    let mut ctx = Ctx::setup();
    let r = ctx.relayer;
    ctx.contract.check_initialize().unwrap_or_else(|e| fail(e));
    ctx.contract.initialize(r);
}

#[test]
fn test_nonce_is_stored_per_account_in_persistent_storage() {
    let mut ctx = Ctx::setup();
    let (r, m) = (ctx.relayer, ctx.meta_tx(0));
    ctx.execute(&r, &m);

    assert!(ctx.nonce_in_persistent(&ctx.alice), "alice's nonce must have an entry of its own");
    assert!(!ctx.nonce_in_instance(&ctx.alice), "nonce must not be packed into a shared entry");
    // An account that has never transacted has no entry at all.
    assert!(!ctx.nonce_in_persistent(&ctx.bob));
    assert_eq!(ctx.nonce(&ctx.bob), 0);
}

#[test]
fn test_multiple_users_independent_nonces() {
    let mut ctx = Ctx::setup();
    let bob = ctx.bob;
    ctx.mint(&bob, AMOUNT * 5);

    // alice executes nonce 0.
    let (r, m) = (ctx.relayer, ctx.meta_tx(0));
    ctx.execute(&r, &m);

    // bob's nonce is still 0 independently.
    let bob_tx = make_meta_tx(ctx.bob, ctx.alice, ctx.token, AMOUNT, 0, DEADLINE);
    ctx.execute(&r, &bob_tx);

    assert_eq!(ctx.nonce(&ctx.alice), 1);
    assert_eq!(ctx.nonce(&ctx.bob), 1);
    assert!(ctx.nonce_in_persistent(&ctx.alice));
    assert!(ctx.nonce_in_persistent(&ctx.bob));
}

#[test]
fn test_invalidate_nonces_retires_a_batch_in_one_call() {
    let mut ctx = Ctx::setup();
    let a = ctx.alice;
    assert_eq!(ctx.invalidate_nonces(&a, 5), 5);
    assert_eq!(ctx.nonce(&a), 5);
}

#[test]
#[should_panic(expected = "invalid nonce")]
fn test_invalidated_nonce_cannot_be_executed() {
    let mut ctx = Ctx::setup();
    let a = ctx.alice;
    ctx.invalidate_nonces(&a, 5);
    // Nonce 3 was signed before the invalidation and is now dead.
    let (r, m) = (ctx.relayer, ctx.meta_tx(3));
    ctx.execute(&r, &m);
}

#[test]
fn test_execute_resumes_at_the_invalidated_nonce() {
    let mut ctx = Ctx::setup();
    let a = ctx.alice;
    ctx.invalidate_nonces(&a, 5);

    let (r, m) = (ctx.relayer, ctx.meta_tx(5));
    ctx.execute(&r, &m);
    assert_eq!(ctx.nonce(&a), 6);
    assert_eq!(ctx.balance(&ctx.bob), AMOUNT);
}

#[test]
fn test_invalidate_after_execute_advances_from_current() {
    let mut ctx = Ctx::setup();
    let (r, m, a) = (ctx.relayer, ctx.meta_tx(0), ctx.alice);
    ctx.execute(&r, &m);
    assert_eq!(ctx.nonce(&a), 1);

    ctx.invalidate_nonces(&a, 10);
    assert_eq!(ctx.nonce(&a), 10);
}

#[test]
#[should_panic(expected = "invalid nonce")]
fn test_invalidate_cannot_rewind() {
    let mut ctx = Ctx::setup();
    let a = ctx.alice;
    ctx.invalidate_nonces(&a, 5);
    // Rewinding would resurrect already-dead nonces.
    ctx.invalidate_nonces(&a, 2);
}

#[test]
#[should_panic(expected = "invalid nonce")]
fn test_invalidate_to_current_nonce_reverts() {
    let mut ctx = Ctx::setup();
    let a = ctx.alice;
    // A no-op invalidation is a caller mistake, not a silent success.
    ctx.invalidate_nonces(&a, 0);
}

#[test]
fn test_invalidate_accepts_the_maximum_advance() {
    let mut ctx = Ctx::setup();
    let a = ctx.alice;
    ctx.invalidate_nonces(&a, MAX_NONCE_ADVANCE);
    assert_eq!(ctx.nonce(&a), MAX_NONCE_ADVANCE);
}

#[test]
#[should_panic(expected = "advance too large")]
fn test_invalidate_rejects_oversized_advance() {
    let mut ctx = Ctx::setup();
    let a = ctx.alice;
    ctx.invalidate_nonces(&a, MAX_NONCE_ADVANCE + 1);
}

/// The cap is on the jump, measured from the current counter.
#[test]
fn test_invalidate_cap_is_relative_to_current_nonce() {
    let mut ctx = Ctx::setup();
    let a = ctx.alice;
    ctx.invalidate_nonces(&a, MAX_NONCE_ADVANCE);
    ctx.invalidate_nonces(&a, MAX_NONCE_ADVANCE * 2);
    assert_eq!(ctx.nonce(&a), MAX_NONCE_ADVANCE * 2);
}

#[test]
fn test_invalidate_is_per_account() {
    let mut ctx = Ctx::setup();
    let a = ctx.alice;
    ctx.invalidate_nonces(&a, 7);

    assert_eq!(ctx.nonce(&a), 7);
    assert_eq!(ctx.nonce(&ctx.bob), 0, "bob is unaffected");
    assert!(!ctx.nonce_in_persistent(&ctx.bob));
}

#[test]
fn test_invalidate_stores_nonce_persistently() {
    let mut ctx = Ctx::setup();
    let a = ctx.alice;
    ctx.invalidate_nonces(&a, 5);
    assert!(ctx.nonce_in_persistent(&a));
    assert!(!ctx.nonce_in_instance(&a));
}

// ── Further checks ───────────────────────────────────────────────────────────

#[test]
fn test_uninitialized_contract_refuses_execution() {
    let g = Gasless::new();
    let a = Account { contract: false, key_hi: 0, key_lo: 9 };
    let m = make_meta_tx(a, a, a, 1, 0, 10);
    assert_eq!(g.check_execute(a, 0, m), Err(GaslessError::NotInitialized));
    assert_eq!(g.check_initialize(), Ok(()));
}

#[test]
fn test_far_jump_is_refused() {
    let ctx = Ctx::setup();
    let a = ctx.alice;
    // Far beyond the cap in one jump is refused.
    assert_eq!(ctx.contract.check_invalidate(a, u64::MAX), Err(GaslessError::AdvanceTooLarge));
    assert_eq!(ctx.contract.check_invalidate(a, MAX_NONCE_ADVANCE + 1), Err(GaslessError::AdvanceTooLarge));
    assert_eq!(ctx.contract.check_invalidate(a, MAX_NONCE_ADVANCE), Ok(()));
    assert_eq!(ctx.nonce(&a), 0);
}

#[test]
fn test_execute_emits_event() {
    let mut ctx = Ctx::setup();
    let (r, m) = (ctx.relayer, ctx.meta_tx(0));
    ctx.execute(&r, &m);
    assert!(ctx.emitted("executed"), "expected 'executed' event");
    assert_eq!(ctx.events, vec![GaslessEvent::Executed { from: ctx.alice, to: ctx.bob, amount: AMOUNT, nonce: 0 }]);
}

#[test]
fn test_invalidate_emits_event() {
    let mut ctx = Ctx::setup();
    let a = ctx.alice;
    ctx.invalidate_nonces(&a, 5);
    assert!(ctx.emitted("invalidated"), "expected 'invalidated' event");
    assert_eq!(ctx.events, vec![GaslessEvent::Invalidated { user: a, previous: 0, new_nonce: 5 }]);
}

#[test]
fn execute_check_names_each_refusal() {
    let mut ctx = Ctx::setup();
    let (r, a) = (ctx.relayer, ctx.alice);
    let m = ctx.meta_tx(0);
    assert_eq!(ctx.contract.check_execute(a, ctx.timestamp, m), Err(GaslessError::UnauthorizedRelayer));
    assert_eq!(ctx.contract.check_execute(r, DEADLINE + 1, m), Err(GaslessError::Expired));
    assert_eq!(ctx.contract.check_execute(r, DEADLINE, m), Ok(()));
    assert_eq!(ctx.contract.check_execute(r, ctx.timestamp, ctx.meta_tx(3)), Err(GaslessError::InvalidNonce));
    assert_eq!(ctx.contract.check_invalidate(a, 0), Err(GaslessError::InvalidNonce));
    ctx.execute(&r, &m);
    // The executed meta-transaction cannot be replayed.
    assert_eq!(ctx.contract.check_execute(r, ctx.timestamp, m), Err(GaslessError::InvalidNonce));
    assert_eq!(ctx.contract.check_initialize(), Err(GaslessError::AlreadyInitialized));
}
