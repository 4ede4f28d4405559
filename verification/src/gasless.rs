//! Gasless (meta-) transactions: a trusted relayer submits a user's signed
//! token transfer, which the contract accepts once, before its deadline and
//! at the user's next nonce. Users can retire a batch of signed but
//! unsubmitted transactions by moving their nonce forward.

use vstd::prelude::*;
use crate::ledger::{Account, Entry, Transfer, amount_in, unique_accounts, balance_of, set_balance};

verus! {

/// Why a call is rejected; `message` gives the contract's panic message.
#[derive(Copy, Clone, Debug, PartialEq, Eq, Structural)]
pub enum GaslessError {
    AlreadyInitialized,
    NotInitialized,
    UnauthorizedRelayer,
    Expired,
    InvalidNonce,
    NonceOverflow,
    AdvanceTooLarge,
}

impl GaslessError {
    /// The message the contract panics with.
    pub fn message(&self) -> (r: &'static str)
        ensures
            r@ == match self {
                GaslessError::AlreadyInitialized => "already initialized"@,
                GaslessError::NotInitialized => "not initialized"@,
                GaslessError::UnauthorizedRelayer => "unauthorized relayer"@,
                GaslessError::Expired => "meta-tx expired"@,
                GaslessError::InvalidNonce => "invalid nonce"@,
                GaslessError::NonceOverflow => "nonce overflow"@,
                GaslessError::AdvanceTooLarge => "advance too large"@,
            },
    {
        match self {
            GaslessError::AlreadyInitialized => "already initialized",
            GaslessError::NotInitialized => "not initialized",
            GaslessError::UnauthorizedRelayer => "unauthorized relayer",
            GaslessError::Expired => "meta-tx expired",
            GaslessError::InvalidNonce => "invalid nonce",
            GaslessError::NonceOverflow => "nonce overflow",
            GaslessError::AdvanceTooLarge => "advance too large",
        }
    }
}

/// A meta-transaction (gasless) request signed by the user.
#[derive(Copy, Clone, Debug, PartialEq, Eq, Structural)]
pub struct MetaTx {
    /// The user whose tokens will be transferred.
    pub from: Account,
    /// Recipient of the transfer.
    pub to: Account,
    /// Token contract.
    pub token: Account,
    pub amount: i128,
    /// Nonce to prevent replay.
    pub nonce: u64,
    /// Deadline (unix timestamp) after which this meta-tx is invalid.
    pub deadline: u64,
}

/// Extend a nonce entry's TTL to this many ledgers on every write.
pub const NONCE_TTL_EXTEND_TO: u32 = 1_036_800;
/// Extend a nonce entry's TTL when it drops below this many ledgers.
pub const NONCE_TTL_THRESHOLD: u32 = 518_400;
/// Largest number of nonces a single `invalidate_nonces` call may burn.
pub const MAX_NONCE_ADVANCE: u64 = 10_000;

/// An event the contract publishes.
#[derive(Copy, Clone, Debug, PartialEq, Eq, Structural)]
pub enum GaslessEvent {
    /// Topic "executed"; data: the meta-transaction's sender, recipient,
    /// amount and nonce.
    Executed { from: Account, to: Account, amount: i128, nonce: u64 },
    /// Topic "invalidated" and the user; data: the nonce before and after.
    Invalidated { user: Account, previous: u64, new_nonce: u64 },
}

/// The contract's stored state.
pub struct Gasless {
    /// The trusted relayer.
    pub admin: Option<Account>,
    /// Each user's next expected nonce (0 for users not listed).
    pub nonces: Vec<Entry>,
}

impl Gasless {
    pub open spec fn wf(&self) -> bool {
        &&& unique_accounts(self.nonces@)
        &&& forall|a: Account| 0 <= #[trigger] amount_in(self.nonces@, a) <= u64::MAX
    }

    /// The next nonce `user` must present.
    pub open spec fn nonce_of(&self, user: Account) -> int {
        amount_in(self.nonces@, user)
    }

    /// Why `relayer` cannot submit `m` at time `now`.
    pub open spec fn execute_check(&self, relayer: Account, now: u64, m: MetaTx) -> Result<(), GaslessError> {
        match self.admin {
            None => Err(GaslessError::NotInitialized),
            Some(admin) => if relayer != admin {
                Err(GaslessError::UnauthorizedRelayer)
            } else if now > m.deadline {
                Err(GaslessError::Expired)
            } else if m.nonce != self.nonce_of(m.from) {
                Err(GaslessError::InvalidNonce)
            } else if m.nonce == u64::MAX {
                Err(GaslessError::NonceOverflow)
            } else {
                Ok(())
            },
        }
    }

    /// A contract with no relayer yet.
    pub fn new() -> (r: Gasless)
        ensures
            r.wf(),
            r.admin is None,
            r.nonces@.len() == 0,
            forall|a: Account| r.nonce_of(a) == 0,
    {
        let r = Gasless { admin: None, nonces: Vec::new() };
        proof {
            assert forall|a: Account| r.nonce_of(a) == 0 by {
                crate::ledger::lemma_amount_absent(r.nonces@, a);
            }
        }
        r
    }

    /// Why `user` cannot move their counter to `new_nonce`.
    pub open spec fn invalidate_check(&self, user: Account, new_nonce: u64) -> Result<(), GaslessError> {
        if new_nonce <= self.nonce_of(user) {
            Err(GaslessError::InvalidNonce)
        } else if new_nonce - self.nonce_of(user) > MAX_NONCE_ADVANCE {
            Err(GaslessError::AdvanceTooLarge)
        } else {
            Ok(())
        }
    }

    /// Tells whether `initialize` may run (the contract panics with
    /// "already initialized" otherwise).
    pub fn check_initialize(&self) -> (r: Result<(), GaslessError>)
        ensures
            r == (if self.admin is Some { Err(GaslessError::AlreadyInitialized) } else { Ok(()) }),
    {
        if self.admin.is_some() { Err(GaslessError::AlreadyInitialized) } else { Ok(()) }
    }

    /// Sets the trusted relayer, once.
    pub fn initialize(&mut self, admin: Account)
        requires
            old(self).wf(),
            old(self).admin is None,
        ensures
            final(self).wf(),
            final(self).admin == Some(admin),
            final(self).nonces@ == old(self).nonces@,
    {
        self.admin = Some(admin);
    }

    /// Tells whether `execute` may run, and if not, with which error the
    /// contract stops.
    pub fn check_execute(&self, relayer: Account, now: u64, meta_tx: MetaTx) -> (r: Result<(), GaslessError>)
        requires
            self.wf(),
        ensures
            r == self.execute_check(relayer, now, meta_tx),
    {
        let admin = match self.admin {
            Some(a) => a,
            None => return Err(GaslessError::NotInitialized),
        };
        if relayer != admin {
            return Err(GaslessError::UnauthorizedRelayer);
        }
        if now > meta_tx.deadline {
            return Err(GaslessError::Expired);
        }
        let expected = self.nonce(meta_tx.from);
        if meta_tx.nonce != expected {
            return Err(GaslessError::InvalidNonce);
        }
        if expected == u64::MAX {
            return Err(GaslessError::NonceOverflow);
        }
        Ok(())
    }

    /// Executes `meta_tx` for its user: only the relayer may submit, not
    /// after the deadline, and only at the user's next nonce, which is
    /// consumed before the transfer is made (the contract panics otherwise;
    /// `check_execute` names the case).
    pub fn execute(
        &mut self,
        relayer: Account,
        now: u64,
        meta_tx: MetaTx,
        transfers: &mut Vec<Transfer>,
        events: &mut Vec<GaslessEvent>,
    )
        requires
            old(self).wf(),
            old(self).admin == Some(relayer),
            now <= meta_tx.deadline,
            meta_tx.nonce == old(self).nonce_of(meta_tx.from),
            meta_tx.nonce < u64::MAX,
        ensures
            final(self).wf(),
            final(self).admin == old(self).admin,
            forall|a: Account| #[trigger] final(self).nonce_of(a)
                == if a == meta_tx.from { old(self).nonce_of(a) + 1 } else { old(self).nonce_of(a) },
            final(transfers)@ == old(transfers)@.push(
                Transfer { token: meta_tx.token, from: meta_tx.from, to: meta_tx.to, amount: meta_tx.amount }),
            final(events)@ == old(events)@.push(GaslessEvent::Executed {
                from: meta_tx.from, to: meta_tx.to, amount: meta_tx.amount, nonce: meta_tx.nonce,
            }),
    {
        let expected = self.nonce(meta_tx.from);
        let next = expected + 1;
        self.write_nonce(meta_tx.from, next);
        transfers.push(Transfer { token: meta_tx.token, from: meta_tx.from, to: meta_tx.to, amount: meta_tx.amount });
        events.push(GaslessEvent::Executed {
            from: meta_tx.from, to: meta_tx.to, amount: meta_tx.amount, nonce: meta_tx.nonce,
        });
    }

    /// Tells whether `invalidate_nonces` may run, and if not, with which
    /// error the contract stops.
    pub fn check_invalidate(&self, user: Account, new_nonce: u64) -> (r: Result<(), GaslessError>)
        requires
            self.wf(),
        ensures
            r == self.invalidate_check(user, new_nonce),
    {
        let current = self.nonce(user);
        if new_nonce <= current {
            return Err(GaslessError::InvalidNonce);
        }
        if new_nonce - current > MAX_NONCE_ADVANCE {
            return Err(GaslessError::AdvanceTooLarge);
        }
        Ok(())
    }

    /// Retires every nonce of `user` below `new_nonce` at once; it must move
    /// the counter forward by at most `MAX_NONCE_ADVANCE` (the contract
    /// panics otherwise; `check_invalidate` names the case). Returns the new
    /// next-expected nonce.
    pub fn invalidate_nonces(
        &mut self,
        user: Account,
        new_nonce: u64,
        events: &mut Vec<GaslessEvent>,
    ) -> (r: u64)
        requires
            old(self).wf(),
            old(self).nonce_of(user) < new_nonce <= old(self).nonce_of(user) + MAX_NONCE_ADVANCE,
        ensures
            final(self).wf(),
            r == new_nonce,
            final(self).admin == old(self).admin,
            forall|a: Account| #[trigger] final(self).nonce_of(a)
                == if a == user { new_nonce as int } else { old(self).nonce_of(a) },
            final(events)@ == old(events)@.push(GaslessEvent::Invalidated {
                user, previous: old(self).nonce_of(user) as u64, new_nonce,
            }),
    {
        let current = self.nonce(user);
        self.write_nonce(user, new_nonce);
        events.push(GaslessEvent::Invalidated { user, previous: current, new_nonce });
        new_nonce
    }

    /// The next nonce `user` must present (0 before their first).
    pub fn nonce(&self, user: Account) -> (r: u64)
        requires
            self.wf(),
        ensures
            r == self.nonce_of(user),
    {
        let v = balance_of(&self.nonces, user);
        proof {
            assert(0 <= amount_in(self.nonces@, user) <= u64::MAX);
        }
        v as u64
    }

    fn write_nonce(&mut self, user: Account, value: u64)
        requires
            old(self).wf(),
        ensures
            final(self).wf(),
            final(self).admin == old(self).admin,
            forall|a: Account| #[trigger] final(self).nonce_of(a)
                == if a == user { value as int } else { old(self).nonce_of(a) },
    {
        set_balance(&mut self.nonces, user, value as i128);
        proof {
            assert forall|a: Account| 0 <= #[trigger] amount_in(self.nonces@, a) <= u64::MAX by {
                if a != user {
                    assert(0 <= amount_in(old(self).nonces@, a) <= u64::MAX);
                }
            }
        }
    }

    /// The relayer (the contract panics with "not initialized" before
    /// `initialize`).
    pub fn relayer(&self) -> (r: Account)
        requires
            self.admin is Some,
        ensures
            r == self.admin.unwrap(),
    {
        self.admin.unwrap()
    }
}

/// Builds a `MetaTx`.
pub fn make_meta_tx(from: Account, to: Account, token: Account, amount: i128, nonce: u64, deadline: u64) -> (r: MetaTx)
    ensures
        r == (MetaTx { from, to, token, amount, nonce, deadline }),
{
    MetaTx { from, to, token, amount, nonce, deadline }
}

/// Replay protection: once a meta-transaction has been executed (its user's
/// nonce moved past it), submitting it again is refused, by any relayer and
/// at any time.
pub proof fn law_no_replay(before: Gasless, after: Gasless, m: MetaTx, relayer: Account, now: u64)
    requires
        before.nonce_of(m.from) == m.nonce,
        after.nonce_of(m.from) == before.nonce_of(m.from) + 1,
    ensures
        after.execute_check(relayer, now, m) is Err,
{
}

/// Invalidation retires the whole range: after the counter moved to
/// `new_nonce`, no meta-transaction with a nonce below it can be executed.
pub proof fn law_invalidated_nonces_retired(after: Gasless, m: MetaTx, new_nonce: u64, relayer: Account, now: u64)
    requires
        after.nonce_of(m.from) == new_nonce,
        m.nonce < new_nonce,
    ensures
        after.execute_check(relayer, now, m) is Err,
{
}

} // verus!
