//! A soulbound identity token: the issuer mints at most one badge per
//! holder, with optional metadata; badges cannot be transferred by their
//! holders, only moved or revoked by the issuer, or burned.

use vstd::prelude::*;
use crate::ledger::{Account, Entry, amount_in, unique_accounts, balance_of, set_balance};

verus! {

/// The contract's errors (with their codes) and the conditions on which it
/// panics (with `message`).
#[derive(Copy, Clone, Debug, PartialEq, Eq, Structural)]
pub enum Error {
    AlreadyInitialized,
    NotInitialized,
    Unauthorized,
    /// The holder already has a badge.
    AlreadyMinted,
    TokenNotFound,
    /// Burning or moving a badge the account does not hold.
    InsufficientBalance,
    NoTokenToRevoke,
    NoTokenToUpdate,
}

impl Error {
    /// The contract error code (0 for a panic, which has none).
    pub fn code(&self) -> (r: u32)
        ensures
            r == match self {
                Error::AlreadyInitialized => 1u32,
                Error::NotInitialized => 2,
                Error::Unauthorized => 3,
                Error::AlreadyMinted => 4,
                Error::TokenNotFound => 5,
                _ => 0,
            },
    {
        match self {
            Error::AlreadyInitialized => 1,
            Error::NotInitialized => 2,
            Error::Unauthorized => 3,
            Error::AlreadyMinted => 4,
            Error::TokenNotFound => 5,
            _ => 0,
        }
    }

    /// The message the contract panics with.
    pub fn message(&self) -> (r: &'static str)
        ensures
            r@ == match self {
                Error::AlreadyInitialized => "already initialized"@,
                Error::NotInitialized => "not initialized"@,
                Error::Unauthorized => "unauthorized"@,
                Error::AlreadyMinted => "cannot hold more than one soulbound token"@,
                Error::TokenNotFound => "token not found"@,
                Error::InsufficientBalance => "insufficient balance"@,
                Error::NoTokenToRevoke => "no token to revoke"@,
                Error::NoTokenToUpdate => "no token to update"@,
            },
    {
        match self {
            Error::AlreadyInitialized => "already initialized",
            Error::NotInitialized => "not initialized",
            Error::Unauthorized => "unauthorized",
            Error::AlreadyMinted => "cannot hold more than one soulbound token",
            Error::TokenNotFound => "token not found",
            Error::InsufficientBalance => "insufficient balance",
            Error::NoTokenToRevoke => "no token to revoke",
            Error::NoTokenToUpdate => "no token to update",
        }
    }
}

/// A holder's badge metadata.
#[derive(Clone, Debug)]
pub struct MetadataEntry {
    pub owner: Account,
    pub metadata: String,
}

/// The metadata stored for `owner`.
pub open spec fn metadata_of(entries: Seq<MetadataEntry>, owner: Account) -> Option<Seq<char>>
    decreases entries.len(),
{
    if entries.len() == 0 {
        None
    } else if entries.last().owner == owner {
        Some(entries.last().metadata@)
    } else {
        metadata_of(entries.drop_last(), owner)
    }
}

/// The metadata `identity_metadata` reports: empty when none is stored.
pub open spec fn shown_metadata(entries: Seq<MetadataEntry>, owner: Account) -> Seq<char> {
    match metadata_of(entries, owner) {
        Some(m) => m,
        None => Seq::empty(),
    }
}

/// The contract's stored state.
pub struct SoulboundToken {
    /// The issuer.
    pub admin: Option<Account>,
    pub decimals: u32,
    pub name: String,
    pub symbol: String,
    pub balances: Vec<Entry>,
    pub metadata: Vec<MetadataEntry>,
}

impl SoulboundToken {
    /// Every holder has at most one badge.
    pub open spec fn wf(&self) -> bool {
        &&& unique_accounts(self.balances@)
        &&& forall|a: Account| 0 <= #[trigger] amount_in(self.balances@, a) <= 1
        &&& forall|i: int, j: int| 0 <= i < j < self.metadata@.len() ==> self.metadata@[i].owner != self.metadata@[j].owner
    }

    pub open spec fn balance_of(&self, a: Account) -> int {
        amount_in(self.balances@, a)
    }

    pub open spec fn meta(&self, a: Account) -> Seq<char> {
        shown_metadata(self.metadata@, a)
    }

    /// A token that has not been initialized.
    pub fn new() -> (r: SoulboundToken)
        ensures
            r.wf(),
            r.admin is None,
            r.decimals == 0,
            r.name@ == Seq::<char>::empty(),
            r.symbol@ == Seq::<char>::empty(),
            r.balances@.len() == 0,
            r.metadata@.len() == 0,
            forall|a: Account| r.balance_of(a) == 0 && r.meta(a) == Seq::<char>::empty(),
    {
        let r = SoulboundToken {
            admin: None,
            decimals: 0,
            name: String::new(),
            symbol: String::new(),
            balances: Vec::new(),
            metadata: Vec::new(),
        };
        proof {
            assert forall|a: Account| r.balance_of(a) == 0 && r.meta(a) == Seq::<char>::empty() by {
                crate::ledger::lemma_amount_absent(r.balances@, a);
            }
            assert forall|a: Account| 0 <= #[trigger] amount_in(r.balances@, a) <= 1 by {
                crate::ledger::lemma_amount_absent(r.balances@, a);
            }
        }
        r
    }

    /// Tells whether `initialize` may run ("already initialized" otherwise).
    pub fn check_initialize(&self) -> (r: Result<(), Error>)
        ensures
            r == (if self.admin is Some { Err(Error::AlreadyInitialized) } else { Ok(()) }),
    {
        if self.admin.is_some() { Err(Error::AlreadyInitialized) } else { Ok(()) }
    }

    /// Sets the issuer and the token's description, once.
    pub fn initialize(&mut self, admin: Account, decimal: u32, name: String, symbol: String)
        requires
            old(self).wf(),
            old(self).admin is None,
        ensures
            final(self).wf(),
            final(self).admin == Some(admin),
            final(self).decimals == decimal,
            final(self).name@ == name@,
            final(self).symbol@ == symbol@,
            final(self).balances@ == old(self).balances@,
            final(self).metadata@ == old(self).metadata@,
    {
        self.admin = Some(admin);
        self.decimals = decimal;
        self.name = name;
        self.symbol = symbol;
    }

    fn receive_badge(&mut self, to: Account)
        requires
            old(self).wf(),
            old(self).balance_of(to) < 1,
        ensures
            final(self).wf(),
            forall|a: Account| #[trigger] final(self).balance_of(a) == if a == to { 1 } else { old(self).balance_of(a) },
            final(self).metadata@ == old(self).metadata@ && final(self).admin == old(self).admin,
            final(self).decimals == old(self).decimals && final(self).name == old(self).name
                && final(self).symbol == old(self).symbol,
    {
        set_balance(&mut self.balances, to, 1);
        proof {
            assert forall|a: Account| 0 <= #[trigger] amount_in(self.balances@, a) <= 1 by {
                if a != to {
                    assert(0 <= amount_in(old(self).balances@, a) <= 1);
                }
            }
        }
    }

    fn spend_badge(&mut self, from: Account)
        requires
            old(self).wf(),
            old(self).balance_of(from) >= 1,
        ensures
            final(self).wf(),
            forall|a: Account| #[trigger] final(self).balance_of(a) == if a == from { 0 } else { old(self).balance_of(a) },
            final(self).metadata@ == old(self).metadata@ && final(self).admin == old(self).admin,
            final(self).decimals == old(self).decimals && final(self).name == old(self).name
                && final(self).symbol == old(self).symbol,
    {
        let b = balance_of(&self.balances, from);
        proof {
            assert(0 <= amount_in(old(self).balances@, from) <= 1);
        }
        set_balance(&mut self.balances, from, b - 1);
        proof {
            assert forall|a: Account| 0 <= #[trigger] amount_in(self.balances@, a) <= 1 by {
                if a != from {
                    assert(0 <= amount_in(old(self).balances@, a) <= 1);
                }
            }
        }
    }

    fn find_metadata(&self, owner: Account) -> (r: Option<usize>)
        requires
            self.wf(),
        ensures
            r is None ==> metadata_of(self.metadata@, owner) is None
                && forall|i: int| 0 <= i < self.metadata@.len() ==> self.metadata@[i].owner != owner,
            r matches Some(i) ==> i < self.metadata@.len() && self.metadata@[i as int].owner == owner
                && metadata_of(self.metadata@, owner) == Some(self.metadata@[i as int].metadata@),
    {
        let mut i: usize = self.metadata.len();
        assert(self.metadata@.subrange(0, i as int) =~= self.metadata@);
        while i > 0
            invariant
                i <= self.metadata@.len(),
                metadata_of(self.metadata@, owner) == metadata_of(self.metadata@.subrange(0, i as int), owner),
                forall|j: int| i <= j < self.metadata@.len() ==> self.metadata@[j].owner != owner,
            decreases i,
        {
            proof {
                assert(self.metadata@.subrange(0, i as int).drop_last() =~= self.metadata@.subrange(0, i - 1 as int));
            }
            if self.metadata[i - 1].owner == owner {
                return Some(i - 1);
            }
            i -= 1;
        }
        proof {
            lemma_metadata_absent(self.metadata@, owner);
        }
        None
    }

    fn write_identity_metadata(&mut self, owner: Account, metadata: String)
        requires
            old(self).wf(),
        ensures
            final(self).wf(),
            forall|a: Account| #[trigger] final(self).meta(a) == if a == owner { metadata@ } else { old(self).meta(a) },
            forall|a: Account| #[trigger] metadata_of(final(self).metadata@, a)
                == if a == owner { Some(metadata@) } else { metadata_of(old(self).metadata@, a) },
            final(self).balances@ == old(self).balances@,
            final(self).admin == old(self).admin,
            final(self).decimals == old(self).decimals && final(self).name == old(self).name
                && final(self).symbol == old(self).symbol,
    {
        self.remove_identity_metadata(owner);
        let ghost s0 = self.metadata@;
        let ghost m = metadata@;
        self.metadata.push(MetadataEntry { owner, metadata });
        proof {
            assert(self.metadata@.drop_last() =~= s0);
            assert(self.metadata@.last().owner == owner && self.metadata@.last().metadata@ == m);
            assert forall|a: Account| #[trigger] metadata_of(self.metadata@, a)
                == if a == owner { Some(m) } else { metadata_of(s0, a) } by {}
            assert forall|a: Account| #[trigger] self.meta(a) == if a == owner { m } else { old(self).meta(a) } by {
                assert(metadata_of(self.metadata@, a) == if a == owner { Some(m) } else { metadata_of(s0, a) });
            }
            assert forall|i: int, j: int| 0 <= i < j < self.metadata@.len() implies
                self.metadata@[i].owner != self.metadata@[j].owner by {
                if j == s0.len() {
                    assert(self.metadata@[i] == s0[i]);
                }
            }
        }
    }

    fn remove_identity_metadata(&mut self, owner: Account)
        requires
            old(self).wf(),
        ensures
            final(self).wf(),
            forall|a: Account| #[trigger] metadata_of(final(self).metadata@, a)
                == if a == owner { None } else { metadata_of(old(self).metadata@, a) },
            forall|a: Account| #[trigger] final(self).meta(a) == if a == owner { Seq::<char>::empty() } else { old(self).meta(a) },
            forall|i: int| 0 <= i < final(self).metadata@.len() ==> final(self).metadata@[i].owner != owner,
            final(self).balances@ == old(self).balances@,
            final(self).admin == old(self).admin,
            final(self).decimals == old(self).decimals && final(self).name == old(self).name
                && final(self).symbol == old(self).symbol,
    {
        match self.find_metadata(owner) {
            None => {
                proof {
                    assert forall|a: Account| #[trigger] metadata_of(self.metadata@, a)
                        == if a == owner { None } else { metadata_of(old(self).metadata@, a) } by {}
                }
            },
            Some(i) => {
                let ghost s0 = self.metadata@;
                self.metadata.remove(i);
                proof {
                    assert(self.metadata@ =~= s0.remove(i as int));
                    assert forall|a: Account| #[trigger] metadata_of(self.metadata@, a)
                        == if a == owner { None } else { metadata_of(s0, a) } by {
                        lemma_metadata_remove(s0, i as int, a);
                    }
                    assert forall|j: int| 0 <= j < self.metadata@.len() implies self.metadata@[j].owner != owner by {
                        if j < i { assert(self.metadata@[j] == s0[j]); } else { assert(self.metadata@[j] == s0[j + 1]); }
                    }
                }
            },
        }
    }

    /// Tells whether a mint to `to` may run, and if not, with which error
    /// the contract stops.
    pub fn check_mint(&self, to: Account) -> (r: Result<(), Error>)
        requires
            self.wf(),
        ensures
            r == (if self.admin is None {
                Err(Error::NotInitialized)
            } else if self.balance_of(to) >= 1 {
                Err(Error::AlreadyMinted)
            } else {
                Ok(())
            }),
    {
        if self.admin.is_none() {
            return Err(Error::NotInitialized);
        }
        if balance_of(&self.balances, to) >= 1 {
            return Err(Error::AlreadyMinted);
        }
        Ok(())
    }

    /// Mints a badge to `to`, with empty metadata; a holder may own at most
    /// one (the contract panics otherwise; `check_mint` names the case).
    pub fn mint(&mut self, to: Account)
        requires
            old(self).wf(),
            old(self).admin is Some,
            old(self).balance_of(to) < 1,
        ensures
            final(self).wf(),
            final(self).balance_of(to) == 1,
            final(self).meta(to) == Seq::<char>::empty(),
            forall|a: Account| a != to ==> #[trigger] final(self).balance_of(a) == old(self).balance_of(a)
                && final(self).meta(a) == old(self).meta(a),
            final(self).admin == old(self).admin,
    {
        self.mint_identity(to, String::new())
    }

    /// Mints a badge to `to` carrying the issuer's `metadata` (the contract
    /// panics where `check_mint` names a case).
    pub fn mint_identity(&mut self, to: Account, metadata: String)
        requires
            old(self).wf(),
            old(self).admin is Some,
            old(self).balance_of(to) < 1,
        ensures
            final(self).wf(),
            final(self).balance_of(to) == 1,
            final(self).meta(to) == metadata@,
            forall|a: Account| a != to ==> #[trigger] final(self).balance_of(a) == old(self).balance_of(a)
                && final(self).meta(a) == old(self).meta(a),
            final(self).admin == old(self).admin,
    {
        self.give_badge(to, metadata)
    }

    /// Replaces the issuer (the contract panics before `initialize`).
    pub fn set_admin(&mut self, new_admin: Account)
        requires
            old(self).wf(),
            old(self).admin is Some,
        ensures
            final(self).wf(),
            final(self).admin == Some(new_admin),
            final(self).balances@ == old(self).balances@,
            final(self).metadata@ == old(self).metadata@,
    {
        self.admin = Some(new_admin);
    }

    /// The number of badges `id` holds (0 or 1).
    pub fn balance(&self, id: Account) -> (r: i128)
        requires
            self.wf(),
        ensures
            r == self.balance_of(id),
            0 <= r <= 1,
    {
        proof {
            assert(0 <= amount_in(self.balances@, id) <= 1);
        }
        balance_of(&self.balances, id)
    }

    /// Holders cannot transfer their badges.
    pub fn transfer(&self, from: Account, to: Account, amount: i128) -> (r: Result<(), Error>)
        ensures
            r == Err::<(), Error>(Error::Unauthorized),
    {
        Err(Error::Unauthorized)
    }

    /// Badges cannot be moved through an allowance either.
    pub fn transfer_from(&self, spender: Account, from: Account, to: Account, amount: i128) -> (r: Result<(), Error>)
        ensures
            r == Err::<(), Error>(Error::Unauthorized),
    {
        Err(Error::Unauthorized)
    }

    /// Takes `from`'s badge and its metadata away.
    fn take_badge(&mut self, from: Account)
        requires
            old(self).wf(),
            old(self).balance_of(from) >= 1,
        ensures
            final(self).wf(),
            final(self).balance_of(from) == 0,
            final(self).meta(from) == Seq::<char>::empty(),
            forall|a: Account| a != from ==> #[trigger] final(self).balance_of(a) == old(self).balance_of(a)
                && final(self).meta(a) == old(self).meta(a),
            final(self).admin == old(self).admin,
    {
        self.spend_badge(from);
        let ghost s1 = *self;
        self.remove_identity_metadata(from);
        proof {
            assert(s1.balance_of(from) == 0);
            assert(self.balance_of(from) == s1.balance_of(from));
            assert(self.meta(from) == Seq::<char>::empty());
            assert forall|a: Account| a != from implies #[trigger] self.balance_of(a) == old(self).balance_of(a)
                && self.meta(a) == old(self).meta(a) by {
                assert(self.meta(a) == s1.meta(a));
                assert(s1.meta(a) == old(self).meta(a));
                assert(s1.balance_of(a) == old(self).balance_of(a));
                assert(self.balance_of(a) == s1.balance_of(a));
            }
        }
    }

    /// Gives `to` a badge carrying `metadata`.
    fn give_badge(&mut self, to: Account, metadata: String)
        requires
            old(self).wf(),
            old(self).balance_of(to) < 1,
        ensures
            final(self).wf(),
            final(self).balance_of(to) == 1,
            final(self).meta(to) == metadata@,
            forall|a: Account| a != to ==> #[trigger] final(self).balance_of(a) == old(self).balance_of(a)
                && final(self).meta(a) == old(self).meta(a),
            final(self).admin == old(self).admin,
    {
        self.receive_badge(to);
        let ghost s1 = *self;
        let ghost m = metadata@;
        self.write_identity_metadata(to, metadata);
        proof {
            assert(s1.balance_of(to) == 1);
            assert(self.balance_of(to) == s1.balance_of(to));
            assert(self.meta(to) == m);
            assert forall|a: Account| a != to implies #[trigger] self.balance_of(a) == old(self).balance_of(a)
                && self.meta(a) == old(self).meta(a) by {
                assert(self.meta(a) == s1.meta(a));
                assert(s1.meta(a) == old(self).meta(a));
                assert(s1.balance_of(a) == old(self).balance_of(a));
                assert(self.balance_of(a) == s1.balance_of(a));
            }
        }
    }

    /// Tells whether `from` holds a badge to burn ("insufficient balance"
    /// otherwise).
    pub fn check_burn(&self, from: Account) -> (r: Result<(), Error>)
        requires
            self.wf(),
        ensures
            r == (if self.balance_of(from) < 1 { Err(Error::InsufficientBalance) } else { Ok(()) }),
    {
        if balance_of(&self.balances, from) < 1 { Err(Error::InsufficientBalance) } else { Ok(()) }
    }

    /// The holder burns their badge (the contract panics when there is
    /// none; `check_burn` names the case).
    pub fn burn(&mut self, from: Account)
        requires
            old(self).wf(),
            old(self).balance_of(from) >= 1,
        ensures
            final(self).wf(),
            final(self).balance_of(from) == 0,
            final(self).meta(from) == Seq::<char>::empty(),
            forall|a: Account| a != from ==> #[trigger] final(self).balance_of(a) == old(self).balance_of(a)
                && final(self).meta(a) == old(self).meta(a),
            final(self).admin == old(self).admin,
    {
        self.take_badge(from)
    }

    /// Tells whether the issuer may move `from`'s badge to `to`, and if not,
    /// with which error the contract stops.
    pub fn check_admin_transfer(&self, from: Account, to: Account) -> (r: Result<(), Error>)
        requires
            self.wf(),
        ensures
            r == (if self.admin is None {
                Err(Error::NotInitialized)
            } else if self.balance_of(from) < 1 {
                Err(Error::InsufficientBalance)
            } else if from != to && self.balance_of(to) >= 1 {
                Err(Error::AlreadyMinted)
            } else {
                Ok(())
            }),
    {
        if self.admin.is_none() {
            return Err(Error::NotInitialized);
        }
        if balance_of(&self.balances, from) < 1 {
            return Err(Error::InsufficientBalance);
        }
        if from != to && balance_of(&self.balances, to) >= 1 {
            return Err(Error::AlreadyMinted);
        }
        Ok(())
    }

    /// The issuer moves `from`'s badge, with its metadata, to `to` (the
    /// contract panics where `check_admin_transfer` names a case).
    pub fn admin_transfer(&mut self, from: Account, to: Account)
        requires
            old(self).wf(),
            old(self).admin is Some,
            old(self).balance_of(from) >= 1,
            from != to ==> old(self).balance_of(to) < 1,
        ensures
            final(self).wf(),
            final(self).balance_of(to) == 1,
            final(self).meta(to) == old(self).meta(from),
            from != to ==> final(self).balance_of(from) == 0 && final(self).meta(from) == Seq::<char>::empty(),
            forall|a: Account| a != from && a != to ==> #[trigger] final(self).balance_of(a) == old(self).balance_of(a)
                && final(self).meta(a) == old(self).meta(a),
            final(self).admin == old(self).admin,
    {
        let metadata = self.identity_metadata(from);
        let ghost m = metadata@;
        self.take_badge(from);
        let ghost s1 = *self;
        proof {
            if from != to {
                assert(s1.balance_of(to) == old(self).balance_of(to));
            }
        }
        self.give_badge(to, metadata);
        proof {
            assert(self.meta(to) == m);
            assert forall|a: Account| a != from && a != to implies #[trigger] self.balance_of(a) == old(self).balance_of(a)
                && self.meta(a) == old(self).meta(a) by {
                assert(self.balance_of(a) == s1.balance_of(a));
                assert(self.meta(a) == s1.meta(a));
                assert(s1.balance_of(a) == old(self).balance_of(a));
                assert(s1.meta(a) == old(self).meta(a));
            }
            if from != to {
                assert(self.balance_of(from) == s1.balance_of(from));
                assert(self.meta(from) == s1.meta(from));
            }
        }
    }

    /// Tells whether the issuer may revoke (`revoking`) or update the badge
    /// of `holder`, and if not, with which error the contract stops.
    pub fn check_issuer_change(&self, holder: Account, revoking: bool) -> (r: Result<(), Error>)
        requires
            self.wf(),
        ensures
            r == (if self.admin is None {
                Err(Error::NotInitialized)
            } else if self.balance_of(holder) == 0 {
                Err(if revoking { Error::NoTokenToRevoke } else { Error::NoTokenToUpdate })
            } else {
                Ok(())
            }),
    {
        if self.admin.is_none() {
            return Err(Error::NotInitialized);
        }
        if balance_of(&self.balances, holder) == 0 {
            return Err(if revoking { Error::NoTokenToRevoke } else { Error::NoTokenToUpdate });
        }
        Ok(())
    }

    /// The issuer revokes `from`'s badge (the contract panics with "no token
    /// to revoke" when there is none).
    pub fn revoke(&mut self, from: Account)
        requires
            old(self).wf(),
            old(self).admin is Some,
            old(self).balance_of(from) != 0,
        ensures
            final(self).wf(),
            final(self).balance_of(from) == 0,
            final(self).meta(from) == Seq::<char>::empty(),
            forall|a: Account| a != from ==> #[trigger] final(self).balance_of(a) == old(self).balance_of(a)
                && final(self).meta(a) == old(self).meta(a),
            final(self).admin == old(self).admin,
    {
        proof {
            assert(0 <= amount_in(old(self).balances@, from) <= 1);
        }
        self.take_badge(from)
    }

    /// The issuer replaces the metadata of `to`'s badge (the contract panics
    /// with "no token to update" when there is none).
    pub fn update_metadata(&mut self, to: Account, metadata: String)
        requires
            old(self).wf(),
            old(self).admin is Some,
            old(self).balance_of(to) != 0,
        ensures
            final(self).wf(),
            final(self).meta(to) == metadata@,
            forall|a: Account| #[trigger] final(self).balance_of(a) == old(self).balance_of(a),
            forall|a: Account| a != to ==> #[trigger] final(self).meta(a) == old(self).meta(a),
            final(self).admin == old(self).admin,
    {
        self.write_identity_metadata(to, metadata);
    }

    /// The metadata of `id`'s badge (empty when none).
    pub fn identity_metadata(&self, id: Account) -> (r: String)
        requires
            self.wf(),
        ensures
            r@ == self.meta(id),
    {
        match self.find_metadata(id) {
            Some(i) => self.metadata[i].metadata.clone(),
            None => String::new(),
        }
    }

    /// The token's decimals (the contract panics before `initialize`).
    pub fn decimals(&self) -> (r: u32)
        requires
            self.admin is Some,
        ensures
            r == self.decimals,
    {
        self.decimals
    }

    /// The token's name (the contract panics before `initialize`).
    pub fn name(&self) -> (r: String)
        requires
            self.admin is Some,
        ensures
            r@ == self.name@,
    {
        self.name.clone()
    }

    /// The token's symbol (the contract panics before `initialize`).
    pub fn symbol(&self) -> (r: String)
        requires
            self.admin is Some,
        ensures
            r@ == self.symbol@,
    {
        self.symbol.clone()
    }
}

proof fn lemma_metadata_absent(entries: Seq<MetadataEntry>, owner: Account)
    requires
        forall|i: int| 0 <= i < entries.len() ==> entries[i].owner != owner,
    ensures
        metadata_of(entries, owner) is None,
    decreases entries.len(),
{
    if entries.len() > 0 {
        lemma_metadata_absent(entries.drop_last(), owner);
    }
}

proof fn lemma_metadata_remove(s: Seq<MetadataEntry>, i: int, a: Account)
    requires
        0 <= i < s.len(),
        forall|x: int, y: int| 0 <= x < y < s.len() ==> s[x].owner != s[y].owner,
    ensures
        metadata_of(s.remove(i), a) == if a == s[i].owner { None } else { metadata_of(s, a) },
    decreases s.len(),
{
    let t = s.remove(i);
    if i == s.len() - 1 {
        assert(t =~= s.drop_last());
        if a == s[i].owner {
            assert forall|k: int| 0 <= k < t.len() implies t[k].owner != a by {
                assert(t[k] == s[k]);
            }
            lemma_metadata_absent(t, a);
        }
    } else {
        assert(t.last() == s.last());
        assert(t.drop_last() =~= s.drop_last().remove(i));
        lemma_metadata_remove(s.drop_last(), i, a);
        if a == s[i].owner {
            assert(s.last().owner != a);
        }
    }
}

/// A holder never has more than one badge, and transfers by holders are
/// always refused and change nothing.
pub proof fn law_at_most_one_badge(t: SoulboundToken, a: Account)
    requires
        t.wf(),
    ensures
        0 <= t.balance_of(a) <= 1,
{
}

} // verus!
