//! A token's balance and supply bookkeeping: per-account balances that
//! move only by receiving and spending, a total supply and an optional
//! maximum supply.

use vstd::prelude::*;
use crate::ledger::{Account, Entry, amount_in, sum_amounts, unique_accounts, balance_of, set_balance};

verus! {

/// Why a balance operation is rejected; `message` gives the panic message.
#[derive(Copy, Clone, Debug, PartialEq, Eq, Structural)]
pub enum TokenError {
    InsufficientBalance,
    /// No maximum supply has been set.
    MaxSupplyNotSet,
    /// The contract traps on an arithmetic overflow.
    Overflow,
}

impl TokenError {
    /// The message the contract panics with.
    pub fn message(&self) -> (r: &'static str)
        ensures
            r@ == match self {
                TokenError::InsufficientBalance => "insufficient balance"@,
                TokenError::MaxSupplyNotSet => "called `Option::unwrap()` on a `None` value"@,
                TokenError::Overflow => "attempt to add with overflow"@,
            },
    {
        match self {
            TokenError::InsufficientBalance => "insufficient balance",
            TokenError::MaxSupplyNotSet => "called `Option::unwrap()` on a `None` value",
            TokenError::Overflow => "attempt to add with overflow",
        }
    }
}

/// A token's balances and supply.
pub struct TokenLedger {
    pub balances: Vec<Entry>,
    pub total_supply: i128,
    pub max_supply: Option<i128>,
}

impl TokenLedger {
    pub open spec fn wf(&self) -> bool {
        unique_accounts(self.balances@)
    }

    pub open spec fn balance(&self, a: Account) -> int {
        amount_in(self.balances@, a)
    }

    /// No balances, no supply and no cap.
    pub fn new() -> (r: TokenLedger)
        ensures
            r.wf(),
            r.balances@.len() == 0,
            r.total_supply == 0,
            r.max_supply is None,
    {
        TokenLedger { balances: Vec::new(), total_supply: 0, max_supply: None }
    }

    /// The balance of `addr` (0 for an account that never held any).
    pub fn read_balance(&self, addr: Account) -> (r: i128)
        requires
            self.wf(),
        ensures
            r == self.balance(addr),
    {
        balance_of(&self.balances, addr)
    }

    fn write_balance(&mut self, addr: Account, amount: i128)
        requires
            old(self).wf(),
        ensures
            final(self).wf(),
            forall|a: Account| #[trigger] final(self).balance(a) == if a == addr { amount as int } else { old(self).balance(a) },
            sum_amounts(final(self).balances@) == sum_amounts(old(self).balances@) - old(self).balance(addr) + amount,
            final(self).total_supply == old(self).total_supply,
            final(self).max_supply == old(self).max_supply,
    {
        set_balance(&mut self.balances, addr, amount);
    }

    /// Tells whether `receive_balance` may credit `amount` to `addr` (the
    /// contract traps on an overflow).
    pub fn check_receive(&self, addr: Account, amount: i128) -> (r: Result<(), TokenError>)
        requires
            self.wf(),
        ensures
            r == (if i128::MIN <= self.balance(addr) + amount <= i128::MAX { Ok(()) } else { Err(TokenError::Overflow) }),
    {
        match self.read_balance(addr).checked_add(amount) {
            Some(_) => Ok(()),
            None => Err(TokenError::Overflow),
        }
    }

    /// Credits `amount` to `addr`.
    pub fn receive_balance(&mut self, addr: Account, amount: i128)
        requires
            old(self).wf(),
            i128::MIN <= old(self).balance(addr) + amount <= i128::MAX,
        ensures
            final(self).wf(),
            forall|a: Account| #[trigger] final(self).balance(a)
                == if a == addr { old(self).balance(a) + amount } else { old(self).balance(a) },
            sum_amounts(final(self).balances@) == sum_amounts(old(self).balances@) + amount,
            final(self).total_supply == old(self).total_supply,
            final(self).max_supply == old(self).max_supply,
    {
        let balance = self.read_balance(addr);
        self.write_balance(addr, balance + amount);
    }

    /// Tells whether `spend_balance` may debit `amount` from `addr`, and if
    /// not, with which error the contract stops.
    pub fn check_spend(&self, addr: Account, amount: i128) -> (r: Result<(), TokenError>)
        requires
            self.wf(),
        ensures
            r == (if self.balance(addr) < amount {
                Err(TokenError::InsufficientBalance)
            } else if self.balance(addr) - amount > i128::MAX {
                Err(TokenError::Overflow)
            } else {
                Ok(())
            }),
    {
        let balance = self.read_balance(addr);
        if balance < amount {
            return Err(TokenError::InsufficientBalance);
        }
        match balance.checked_sub(amount) {
            Some(_) => Ok(()),
            None => Err(TokenError::Overflow),
        }
    }

    /// Debits `amount` from `addr`, which must hold at least that much (the
    /// contract panics with "insufficient balance" otherwise).
    pub fn spend_balance(&mut self, addr: Account, amount: i128)
        requires
            old(self).wf(),
            old(self).balance(addr) >= amount,
            old(self).balance(addr) - amount <= i128::MAX,
        ensures
            final(self).wf(),
            forall|a: Account| #[trigger] final(self).balance(a)
                == if a == addr { old(self).balance(a) - amount } else { old(self).balance(a) },
            sum_amounts(final(self).balances@) == sum_amounts(old(self).balances@) - amount,
            final(self).total_supply == old(self).total_supply,
            final(self).max_supply == old(self).max_supply,
    {
        let balance = self.read_balance(addr);
        self.write_balance(addr, balance - amount);
    }

    pub fn read_total_supply(&self) -> (r: i128)
        ensures
            r == self.total_supply,
    {
        self.total_supply
    }

    pub fn write_total_supply(&mut self, amount: i128)
        ensures
            final(self).total_supply == amount,
            final(self).balances@ == old(self).balances@,
            final(self).max_supply == old(self).max_supply,
    {
        self.total_supply = amount;
    }

    pub fn has_max_supply(&self) -> (r: bool)
        ensures
            r == self.max_supply is Some,
    {
        self.max_supply.is_some()
    }

    /// The maximum supply (the contract panics where none is set;
    /// `has_max_supply` tells).
    pub fn read_max_supply(&self) -> (r: i128)
        requires
            self.max_supply is Some,
        ensures
            r == self.max_supply.unwrap(),
    {
        self.max_supply.unwrap()
    }

    pub fn write_max_supply(&mut self, amount: i128)
        ensures
            final(self).max_supply == Some(amount),
            final(self).balances@ == old(self).balances@,
            final(self).total_supply == old(self).total_supply,
    {
        self.max_supply = Some(amount);
    }
}

/// Moving `amount` from `from` to `to` by spending it from one and then
/// receiving it into the other keeps the sum of all balances, takes it off
/// `from`, adds it to `to` and leaves every other account alone.
pub proof fn law_spend_receive_conserves(
    before: TokenLedger,
    mid: TokenLedger,
    after: TokenLedger,
    from: Account,
    to: Account,
    amount: int,
)
    requires
        forall|a: Account| #[trigger] mid.balance(a) == if a == from { before.balance(a) - amount } else { before.balance(a) },
        sum_amounts(mid.balances@) == sum_amounts(before.balances@) - amount,
        forall|a: Account| #[trigger] after.balance(a) == if a == to { mid.balance(a) + amount } else { mid.balance(a) },
        sum_amounts(after.balances@) == sum_amounts(mid.balances@) + amount,
    ensures
        sum_amounts(after.balances@) == sum_amounts(before.balances@),
        from != to ==> after.balance(from) == before.balance(from) - amount
            && after.balance(to) == before.balance(to) + amount,
        from == to ==> after.balance(from) == before.balance(from),
        forall|a: Account| a != from && a != to ==> #[trigger] after.balance(a) == before.balance(a),
{
    assert(after.balance(from) == mid.balance(from) + if from == to { amount } else { 0 });
    assert(after.balance(to) == mid.balance(to) + amount);
    assert(mid.balance(to) == before.balance(to) - if from == to { amount } else { 0 });
    assert forall|a: Account| a != from && a != to implies #[trigger] after.balance(a) == before.balance(a) by {
        assert(after.balance(a) == mid.balance(a));
        assert(mid.balance(a) == before.balance(a));
    }
}

} // verus!
