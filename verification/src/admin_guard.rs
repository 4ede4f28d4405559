//! A committee of admins that approves privileged operations by
//! multi-signature: an operation goes through when at least `threshold`
//! distinct current admins are among its approvers. Approvers that are not
//! admins, and repeated approvers, add nothing.

use vstd::prelude::*;
use crate::ledger::Account;

verus! {

#[derive(Copy, Clone, Debug, PartialEq, Eq, Structural)]
pub enum GuardError {
    NotInitialized,
    Unauthorized,
    Paused,
    InsufficientSignatures,
    InvalidThreshold,
    AdminNotFound,
    AlreadyInitialized,
    GuardianNotFound,
}

impl GuardError {
    /// The contract error code.
    pub fn code(&self) -> (r: u32)
        ensures
            r == match self {
                GuardError::NotInitialized => 0u32,
                GuardError::Unauthorized => 1,
                GuardError::Paused => 2,
                GuardError::InsufficientSignatures => 3,
                GuardError::InvalidThreshold => 4,
                GuardError::AdminNotFound => 5,
                GuardError::AlreadyInitialized => 6,
                GuardError::GuardianNotFound => 7,
            },
    {
        match self {
            GuardError::NotInitialized => 0,
            GuardError::Unauthorized => 1,
            GuardError::Paused => 2,
            GuardError::InsufficientSignatures => 3,
            GuardError::InvalidThreshold => 4,
            GuardError::AdminNotFound => 5,
            GuardError::AlreadyInitialized => 6,
            GuardError::GuardianNotFound => 7,
        }
    }
}

/// How many distinct admins are among `approvers`: each approver counts
/// once, at its first occurrence, and only if it is in `admins`.
pub open spec fn approvals(approvers: Seq<Account>, admins: Seq<Account>) -> nat
    decreases approvers.len(),
{
    if approvers.len() == 0 {
        0
    } else {
        let rest = approvers.drop_last();
        let x = approvers.last();
        approvals(rest, admins) + (if admins.contains(x) && !rest.contains(x) { 1nat } else { 0nat })
    }
}

/// `s` with every occurrence of `from` replaced by `to`.
pub open spec fn replace(s: Seq<Account>, from: Account, to: Account) -> Seq<Account> {
    s.map_values(|a: Account| if a == from { to } else { a })
}

/// `s` with every later repetition of an element left out.
pub open spec fn dedup(s: Seq<Account>) -> Seq<Account>
    decreases s.len(),
{
    if s.len() == 0 {
        s
    } else {
        let d = dedup(s.drop_last());
        if d.contains(s.last()) { d } else { d.push(s.last()) }
    }
}

/// `s` with every occurrence of `x` left out.
pub open spec fn without(s: Seq<Account>, x: Account) -> Seq<Account>
    decreases s.len(),
{
    if s.len() == 0 {
        s
    } else {
        let w = without(s.drop_last(), x);
        if s.last() == x { w } else { w.push(s.last()) }
    }
}

pub proof fn lemma_approvals_le_len(approvers: Seq<Account>, admins: Seq<Account>)
    ensures
        approvals(approvers, admins) <= approvers.len(),
    decreases approvers.len(),
{
    if approvers.len() > 0 {
        lemma_approvals_le_len(approvers.drop_last(), admins);
    }
}

pub proof fn lemma_push_contains(s: Seq<Account>, a: Account)
    ensures
        forall|x: Account| #[trigger] s.push(a).contains(x) <==> s.contains(x) || x == a,
{
    assert forall|x: Account| #[trigger] s.push(a).contains(x) <==> s.contains(x) || x == a by {
        if s.contains(x) {
            let k = choose|k: int| 0 <= k < s.len() && s[k] == x;
            assert(s.push(a)[k] == x);
        }
        if x == a {
            assert(s.push(a)[s.len() as int] == x);
        }
        if s.push(a).contains(x) {
            let k = choose|k: int| 0 <= k < s.len() + 1 && s.push(a)[k] == x;
            if k < s.len() {
                assert(s[k] == x);
            }
        }
    }
}

pub proof fn lemma_dedup(s: Seq<Account>)
    ensures
        forall|x: Account| #[trigger] dedup(s).contains(x) <==> s.contains(x),
        dedup(s).no_duplicates(),
    decreases s.len(),
{
    if s.len() > 0 {
        let r = s.drop_last();
        lemma_dedup(r);
        assert(s =~= r.push(s.last()));
        lemma_push_contains(r, s.last());
        lemma_push_contains(dedup(r), s.last());
    }
}

pub proof fn lemma_dedup_unique(s: Seq<Account>)
    requires
        s.no_duplicates(),
    ensures
        dedup(s) == s,
    decreases s.len(),
{
    if s.len() > 0 {
        let r = s.drop_last();
        assert(r.no_duplicates());
        lemma_dedup_unique(r);
        assert(!r.contains(s.last())) by {
            if r.contains(s.last()) {
                let k = choose|k: int| 0 <= k < r.len() && r[k] == s.last();
                assert(s[k] == s[s.len() - 1]);
            }
        }
        assert(s =~= r.push(s.last()));
    }
}

/// After a rotation the admins are those before it, with `old_admin`
/// replaced by `new_admin`, each once.
pub proof fn law_rotation_members(admins: Seq<Account>, old_admin: Account, new_admin: Account, x: Account)
    requires
        admins.contains(old_admin),
    ensures
        dedup(replace(admins, old_admin, new_admin)).contains(x)
            <==> x == new_admin || (x != old_admin && admins.contains(x)),
        dedup(replace(admins, old_admin, new_admin)).no_duplicates(),
{
    let m = replace(admins, old_admin, new_admin);
    lemma_dedup(m);
    if x == new_admin {
        let k = choose|k: int| 0 <= k < admins.len() && admins[k] == old_admin;
        assert(m[k] == new_admin);
    } else if x != old_admin && admins.contains(x) {
        let k = choose|k: int| 0 <= k < admins.len() && admins[k] == x;
        assert(m[k] == x);
    }
    if m.contains(x) {
        let k = choose|k: int| 0 <= k < m.len() && m[k] == x;
        assert(admins[k] == old_admin || admins[k] == x);
    }
}

/// Swapping an admin for an address that is not yet an admin keeps the
/// number of admins, when no admin was listed twice.
pub proof fn law_rotation_keeps_size(admins: Seq<Account>, old_admin: Account, new_admin: Account)
    requires
        admins.no_duplicates(),
        admins.contains(old_admin),
        !admins.contains(new_admin) || new_admin == old_admin,
    ensures
        dedup(replace(admins, old_admin, new_admin)).len() == admins.len(),
{
    let m = replace(admins, old_admin, new_admin);
    assert forall|i: int, j: int| 0 <= i < m.len() && 0 <= j < m.len() && i != j implies m[i] != m[j] by {
        assert(admins[i] != admins[j]);
        if admins[i] == old_admin && admins[j] != old_admin {
            assert(admins.contains(admins[j]));
        }
        if admins[j] == old_admin && admins[i] != old_admin {
            assert(admins.contains(admins[i]));
        }
    }
    lemma_dedup_unique(m);
}

/// The approvals counted are exactly the distinct admins among the approvers.
pub proof fn law_approvals_are_distinct_admins(approvers: Seq<Account>, admins: Seq<Account>)
    ensures
        approvals(approvers, admins) == approvers.to_set().filter(|a: Account| admins.contains(a)).len(),
        approvers.to_set().filter(|a: Account| admins.contains(a)).finite(),
    decreases approvers.len(),
{
    let f = |a: Account| admins.contains(a);
    if approvers.len() == 0 {
        assert(approvers.to_set().filter(f) =~= Set::<Account>::empty());
    } else {
        let r = approvers.drop_last();
        let x = approvers.last();
        law_approvals_are_distinct_admins(r, admins);
        assert(approvers =~= r.push(x));
        lemma_push_contains(r, x);
        let before = r.to_set().filter(f);
        let after = approvers.to_set().filter(f);
        if f(x) && !r.contains(x) {
            assert(after =~= before.insert(x));
            assert(!before.contains(x));
        } else {
            assert(after =~= before);
        }
    }
}

/// A multi-signature check passes exactly when the committee is set up and
/// at least `threshold` distinct admins are among the approvers.
pub proof fn law_multi_sig_needs_distinct_admins(guard: AdminGuard, approvers: Seq<Account>)
    ensures
        guard.multi_sig(approvers) is Ok <==> guard.initialized
            && approvers.to_set().filter(|a: Account| guard.admins@.contains(a)).len() >= guard.threshold,
{
    law_approvals_are_distinct_admins(approvers, guard.admins@);
}

/// `v` with every occurrence of `x` left out.
pub fn remove_all(v: &Vec<Account>, x: Account) -> (r: Vec<Account>)
    ensures
        r@ == without(v@, x),
{
    let mut kept: Vec<Account> = Vec::new();
    let mut i: usize = 0;
    while i < v.len()
        invariant
            i <= v@.len(),
            kept@ == without(v@.take(i as int), x),
        decreases v@.len() - i,
    {
        let a = v[i];
        proof {
            let t = v@.take(i as int + 1);
            assert(t.drop_last() =~= v@.take(i as int));
        }
        if a != x {
            kept.push(a);
        }
        i += 1;
    }
    assert(v@.take(v@.len() as int) =~= v@);
    kept
}

/// Whether `v` holds `a`.
pub fn contains_account(v: &Vec<Account>, a: Account) -> (r: bool)
    ensures
        r == v@.contains(a),
{
    let mut i: usize = 0;
    while i < v.len()
        invariant
            i <= v@.len(),
            forall|j: int| 0 <= j < i ==> v@[j] != a,
        decreases v@.len() - i,
    {
        if v[i] == a {
            return true;
        }
        i += 1;
    }
    false
}

/// Operations that can be paused, one bit each.
pub const PAUSE_SWAP: u32 = 1;
pub const PAUSE_DEPOSIT: u32 = 2;
pub const PAUSE_WITHDRAW: u32 = 4;
pub const PAUSE_TRANSFER: u32 = 8;
pub const PAUSE_MINT: u32 = 16;
pub const PAUSE_BURN: u32 = 32;
pub const PAUSE_CREATE_PAIR: u32 = 64;
pub const PAUSE_STAKE: u32 = 128;
pub const PAUSE_CLAIM_REWARDS: u32 = 256;

/// The admin committee's stored state, with the guardians that may pause
/// operations on their own and the mask of paused operations.
pub struct AdminGuard {
    pub initialized: bool,
    pub admins: Vec<Account>,
    pub threshold: u32,
    pub guardians: Vec<Account>,
    pub pause_state: u32,
}

impl AdminGuard {
    pub open spec fn wf(&self) -> bool {
        !self.initialized ==> self.admins@.len() == 0 && self.threshold == 0
            && self.guardians@.len() == 0 && self.pause_state == 0
    }

    /// What a multi-signature check of `approvers` answers.
    pub open spec fn multi_sig(&self, approvers: Seq<Account>) -> Result<(), GuardError> {
        if !self.initialized {
            Err(GuardError::NotInitialized)
        } else if approvals(approvers, self.admins@) < self.threshold {
            Err(GuardError::InsufficientSignatures)
        } else {
            Ok(())
        }
    }

    /// A committee that has not been set up.
    pub fn new() -> (r: AdminGuard)
        ensures
            r.wf(),
            !r.initialized,
    {
        AdminGuard { initialized: false, admins: Vec::new(), threshold: 0, guardians: Vec::new(), pause_state: 0 }
    }

    /// Checks that at least `threshold` distinct admins are among `approvers`.
    pub fn check_multi_sig(&self, approvers: &Vec<Account>) -> (r: Result<(), GuardError>)
        ensures
            r == self.multi_sig(approvers@),
    {
        if !self.initialized {
            return Err(GuardError::NotInitialized);
        }
        if approvers.len() < self.threshold as usize {
            proof {
                lemma_approvals_le_len(approvers@, self.admins@);
            }
            return Err(GuardError::InsufficientSignatures);
        }
        let mut valid: usize = 0;
        let mut seen: Vec<Account> = Vec::new();
        let mut i: usize = 0;
        while i < approvers.len()
            invariant
                i <= approvers@.len(),
                valid == approvals(approvers@.take(i as int), self.admins@),
                valid <= i,
                forall|x: Account| seen@.contains(x) <==> approvers@.take(i as int).contains(x),
            decreases approvers@.len() - i,
        {
            let addr = approvers[i];
            let ghost seen_old = seen@;
            proof {
                let t = approvers@.take(i as int + 1);
                assert(t =~= approvers@.take(i as int).push(addr));
                assert(t.drop_last() =~= approvers@.take(i as int));
                assert(t.last() == addr);
                lemma_push_contains(approvers@.take(i as int), addr);
            }
            if !contains_account(&seen, addr) {
                seen.push(addr);
                proof { lemma_push_contains(seen_old, addr); }
                if contains_account(&self.admins, addr) {
                    valid += 1;
                }
            }
            i += 1;
        }
        assert(approvers@.take(approvers@.len() as int) =~= approvers@);
        if (valid as u64) < (self.threshold as u64) {
            Err(GuardError::InsufficientSignatures)
        } else {
            Ok(())
        }
    }

    /// Sets up the committee: `admins` approve, `threshold` of them at
    /// least; the admins are the guardians too.
    pub fn initialize(&mut self, admins: Vec<Account>, threshold: u32) -> (r: Result<(), GuardError>)
        requires
            old(self).wf(),
        ensures
            final(self).wf(),
            r == (if old(self).initialized {
                Err(GuardError::AlreadyInitialized)
            } else if threshold == 0 || threshold > admins@.len() {
                Err(GuardError::InvalidThreshold)
            } else {
                Ok(())
            }),
            r is Ok ==> final(self).initialized && final(self).admins@ == admins@
                && final(self).threshold == threshold && final(self).guardians@ == admins@
                && final(self).pause_state == 0,
            r is Err ==> *final(self) == *old(self),
    {
        let guardians = admins.clone();
        self.initialize_with_roles(admins, guardians, threshold)
    }

    /// Sets up the committee with `guardian` as its one guardian.
    pub fn initialize_with_guardian(&mut self, admins: Vec<Account>, threshold: u32, guardian: Account) -> (r: Result<(), GuardError>)
        requires
            old(self).wf(),
        ensures
            final(self).wf(),
            r == (if old(self).initialized {
                Err(GuardError::AlreadyInitialized)
            } else if threshold == 0 || threshold > admins@.len() {
                Err(GuardError::InvalidThreshold)
            } else {
                Ok(())
            }),
            r is Ok ==> final(self).initialized && final(self).admins@ == admins@
                && final(self).threshold == threshold && final(self).guardians@ == seq![guardian]
                && final(self).pause_state == 0,
            r is Err ==> *final(self) == *old(self),
    {
        if self.initialized {
            return Err(GuardError::AlreadyInitialized);
        }
        if threshold == 0 || threshold as usize > admins.len() {
            return Err(GuardError::InvalidThreshold);
        }
        let mut guardians: Vec<Account> = Vec::new();
        guardians.push(guardian);
        self.initialized = true;
        self.admins = admins;
        self.threshold = threshold;
        self.guardians = guardians;
        self.pause_state = 0;
        Ok(())
    }

    /// Sets up the committee with distinct admin and guardian roles; the
    /// threshold may exceed neither list.
    pub fn initialize_with_roles(&mut self, admins: Vec<Account>, guardians: Vec<Account>, threshold: u32) -> (r: Result<(), GuardError>)
        requires
            old(self).wf(),
        ensures
            final(self).wf(),
            r == (if old(self).initialized {
                Err(GuardError::AlreadyInitialized)
            } else if threshold == 0 || threshold > admins@.len() || threshold > guardians@.len() {
                Err(GuardError::InvalidThreshold)
            } else {
                Ok(())
            }),
            r is Ok ==> final(self).initialized && final(self).admins@ == admins@
                && final(self).threshold == threshold && final(self).guardians@ == guardians@
                && final(self).pause_state == 0,
            r is Err ==> *final(self) == *old(self),
    {
        if self.initialized {
            return Err(GuardError::AlreadyInitialized);
        }
        if threshold == 0 || threshold as usize > admins.len() || threshold as usize > guardians.len() {
            return Err(GuardError::InvalidThreshold);
        }
        self.initialized = true;
        self.admins = admins;
        self.threshold = threshold;
        self.guardians = guardians;
        self.pause_state = 0;
        Ok(())
    }

    /// Whether any operation in `operation` is paused.
    pub fn is_paused(&self, operation: u32) -> (r: bool)
        ensures
            r == (self.pause_state & operation != 0),
    {
        self.pause_state & operation != 0
    }

    /// `Err(Paused)` if any operation in `operation` is paused.
    pub fn check_not_paused(&self, operation: u32) -> (r: Result<(), GuardError>)
        ensures
            r == (if self.pause_state & operation != 0 { Err(GuardError::Paused) } else { Ok(()) }),
    {
        if self.is_paused(operation) {
            Err(GuardError::Paused)
        } else {
            Ok(())
        }
    }

    pub fn get_pause_state(&self) -> (r: u32)
        ensures
            r == self.pause_state,
    {
        self.pause_state
    }

    /// Pauses (or unpauses) the operations in `operation`. Any single admin
    /// or guardian may pause; only an admin may unpause.
    pub fn set_pause(&mut self, caller: Account, operation: u32, paused: bool) -> (r: Result<(), GuardError>)
        requires
            old(self).wf(),
        ensures
            final(self).wf(),
            r == (if !old(self).admins@.contains(caller) && !old(self).guardians@.contains(caller) {
                Err(GuardError::Unauthorized)
            } else if !old(self).admins@.contains(caller) && !paused {
                Err(GuardError::Unauthorized)
            } else {
                Ok(())
            }),
            final(self).pause_state == (if r is Err {
                old(self).pause_state
            } else if paused {
                old(self).pause_state | operation
            } else {
                old(self).pause_state & !operation
            }),
            final(self).initialized == old(self).initialized,
            final(self).admins@ == old(self).admins@,
            final(self).guardians@ == old(self).guardians@,
            final(self).threshold == old(self).threshold,
    {
        let is_admin = contains_account(&self.admins, caller);
        let is_guardian = contains_account(&self.guardians, caller);
        if !is_admin && !is_guardian {
            return Err(GuardError::Unauthorized);
        }
        if !is_admin && !paused {
            return Err(GuardError::Unauthorized);
        }
        if paused {
            self.pause_state = self.pause_state | operation;
        } else {
            self.pause_state = self.pause_state & !operation;
        }
        Ok(())
    }

    /// Pauses every operation; any single admin or guardian may do so.
    pub fn emergency_pause(&mut self, caller: Account) -> (r: Result<(), GuardError>)
        requires
            old(self).wf(),
        ensures
            final(self).wf(),
            r == (if !old(self).admins@.contains(caller) && !old(self).guardians@.contains(caller) {
                Err(GuardError::Unauthorized)
            } else {
                Ok(())
            }),
            final(self).pause_state == (if r is Ok { u32::MAX } else { old(self).pause_state }),
            final(self).initialized == old(self).initialized,
            final(self).admins@ == old(self).admins@,
            final(self).guardians@ == old(self).guardians@,
            final(self).threshold == old(self).threshold,
    {
        if !contains_account(&self.guardians, caller) && !contains_account(&self.admins, caller) {
            return Err(GuardError::Unauthorized);
        }
        self.pause_state = u32::MAX;
        Ok(())
    }

    /// Unpauses every operation, approved by `threshold` distinct admins.
    pub fn resume(&mut self, approvers: &Vec<Account>) -> (r: Result<(), GuardError>)
        requires
            old(self).wf(),
        ensures
            final(self).wf(),
            r == old(self).multi_sig(approvers@),
            final(self).pause_state == (if r is Ok { 0 } else { old(self).pause_state }),
            final(self).initialized == old(self).initialized,
            final(self).admins@ == old(self).admins@,
            final(self).guardians@ == old(self).guardians@,
            final(self).threshold == old(self).threshold,
    {
        match self.check_multi_sig(approvers) {
            Ok(()) => {},
            Err(e) => return Err(e),
        }
        self.pause_state = 0;
        Ok(())
    }

    /// Adds `new_guardian` (once), approved by `threshold` distinct admins.
    pub fn add_guardian(&mut self, approvers: &Vec<Account>, new_guardian: Account) -> (r: Result<(), GuardError>)
        requires
            old(self).wf(),
        ensures
            final(self).wf(),
            r == old(self).multi_sig(approvers@),
            final(self).guardians@ == (if r is Ok && !old(self).guardians@.contains(new_guardian) {
                old(self).guardians@.push(new_guardian)
            } else {
                old(self).guardians@
            }),
            final(self).initialized == old(self).initialized,
            final(self).admins@ == old(self).admins@,
            final(self).threshold == old(self).threshold,
            final(self).pause_state == old(self).pause_state,
    {
        match self.check_multi_sig(approvers) {
            Ok(()) => {},
            Err(e) => return Err(e),
        }
        if !contains_account(&self.guardians, new_guardian) {
            self.guardians.push(new_guardian);
        }
        Ok(())
    }

    /// Removes every occurrence of `guardian`, approved by `threshold`
    /// distinct admins.
    pub fn remove_guardian(&mut self, approvers: &Vec<Account>, guardian: Account) -> (r: Result<(), GuardError>)
        requires
            old(self).wf(),
        ensures
            final(self).wf(),
            r == (match old(self).multi_sig(approvers@) {
                Err(e) => Err(e),
                Ok(()) => if !old(self).guardians@.contains(guardian) {
                    Err(GuardError::GuardianNotFound)
                } else {
                    Ok(())
                },
            }),
            final(self).guardians@ == (if r is Ok {
                without(old(self).guardians@, guardian)
            } else {
                old(self).guardians@
            }),
            final(self).initialized == old(self).initialized,
            final(self).admins@ == old(self).admins@,
            final(self).threshold == old(self).threshold,
            final(self).pause_state == old(self).pause_state,
    {
        match self.check_multi_sig(approvers) {
            Ok(()) => {},
            Err(e) => return Err(e),
        }
        if !contains_account(&self.guardians, guardian) {
            return Err(GuardError::GuardianNotFound);
        }
        self.guardians = remove_all(&self.guardians, guardian);
        Ok(())
    }

    pub fn get_guardians(&self) -> (r: Vec<Account>)
        ensures
            r@ == self.guardians@,
    {
        self.guardians.clone()
    }

    pub fn is_guardian(&self, addr: Account) -> (r: bool)
        ensures
            r == self.guardians@.contains(addr),
    {
        contains_account(&self.guardians, addr)
    }

    /// Adds `new_admin` (once) after a multi-signature approval.
    pub fn add_admin(&mut self, approvers: &Vec<Account>, new_admin: Account) -> (r: Result<(), GuardError>)
        requires
            old(self).wf(),
        ensures
            final(self).wf(),
            r == old(self).multi_sig(approvers@),
            r is Ok ==> final(self).admins@ == (if old(self).admins@.contains(new_admin) {
                old(self).admins@
            } else {
                old(self).admins@.push(new_admin)
            }),
            final(self).initialized == old(self).initialized,
            final(self).threshold == old(self).threshold,
            r is Err ==> *final(self) == *old(self),
    {
        match self.check_multi_sig(approvers) {
            Ok(()) => {},
            Err(e) => return Err(e),
        }
        if !contains_account(&self.admins, new_admin) {
            self.admins.push(new_admin);
        }
        Ok(())
    }

    /// Removes every occurrence of `admin` after a multi-signature approval;
    /// refused while the committee has no more admins than its threshold.
    pub fn remove_admin(&mut self, approvers: &Vec<Account>, admin: Account) -> (r: Result<(), GuardError>)
        requires
            old(self).wf(),
        ensures
            final(self).wf(),
            r == (match old(self).multi_sig(approvers@) {
                Err(e) => Err(e),
                Ok(()) => if old(self).admins@.len() <= old(self).threshold {
                    Err(GuardError::InvalidThreshold)
                } else if !old(self).admins@.contains(admin) {
                    Err(GuardError::AdminNotFound)
                } else {
                    Ok(())
                },
            }),
            r is Ok ==> final(self).admins@ == without(old(self).admins@, admin),
            final(self).initialized == old(self).initialized,
            final(self).threshold == old(self).threshold,
            r is Err ==> *final(self) == *old(self),
    {
        match self.check_multi_sig(approvers) {
            Ok(()) => {},
            Err(e) => return Err(e),
        }
        if self.admins.len() <= self.threshold as usize {
            return Err(GuardError::InvalidThreshold);
        }
        if !contains_account(&self.admins, admin) {
            return Err(GuardError::AdminNotFound);
        }
        let kept = remove_all(&self.admins, admin);
        self.admins = kept;
        Ok(())
    }

    /// Replaces `old_admin` by `new_admin` after a multi-signature approval,
    /// keeping each admin once, in order; refused if `old_admin` is not an
    /// admin or if fewer admins than the threshold would remain.
    pub fn rotate_admin(
        &mut self,
        approvers: &Vec<Account>,
        old_admin: Account,
        new_admin: Account,
    ) -> (r: Result<(), GuardError>)
        requires
            old(self).wf(),
        ensures
            final(self).wf(),
            r == (match old(self).multi_sig(approvers@) {
                Err(e) => Err(e),
                Ok(()) => if !old(self).admins@.contains(old_admin) {
                    Err(GuardError::AdminNotFound)
                } else if dedup(replace(old(self).admins@, old_admin, new_admin)).len() < old(self).threshold {
                    Err(GuardError::InvalidThreshold)
                } else {
                    Ok(())
                },
            }),
            r is Ok ==> final(self).admins@ == dedup(replace(old(self).admins@, old_admin, new_admin)),
            final(self).initialized == old(self).initialized,
            final(self).threshold == old(self).threshold,
            r is Err ==> *final(self) == *old(self),
    {
        match self.check_multi_sig(approvers) {
            Ok(()) => {},
            Err(e) => return Err(e),
        }
        let mut next: Vec<Account> = Vec::new();
        let mut found = false;
        let mut i: usize = 0;
        while i < self.admins.len()
            invariant
                i <= self.admins@.len(),
                next@ == dedup(replace(self.admins@.take(i as int), old_admin, new_admin)),
                found == self.admins@.take(i as int).contains(old_admin),
            decreases self.admins@.len() - i,
        {
            let a = self.admins[i];
            proof {
                let t = self.admins@.take(i as int + 1);
                assert(t =~= self.admins@.take(i as int).push(a));
                lemma_push_contains(self.admins@.take(i as int), a);
                let m = replace(t, old_admin, new_admin);
                assert(m.drop_last() =~= replace(self.admins@.take(i as int), old_admin, new_admin));
                assert(m.last() == (if a == old_admin { new_admin } else { a }));
            }
            if a == old_admin {
                found = true;
                if !contains_account(&next, new_admin) {
                    next.push(new_admin);
                }
            } else if !contains_account(&next, a) {
                next.push(a);
            }
            i += 1;
        }
        assert(self.admins@.take(self.admins@.len() as int) =~= self.admins@);
        if !found {
            return Err(GuardError::AdminNotFound);
        }
        if next.len() < self.threshold as usize {
            return Err(GuardError::InvalidThreshold);
        }
        self.admins = next;
        Ok(())
    }

    /// The current admins, in order (none before setup).
    pub fn get_admins(&self) -> (r: Vec<Account>)
        ensures
            r@ == self.admins@,
    {
        self.admins.clone()
    }

    /// The number of approvals required (0 before setup).
    pub fn get_threshold(&self) -> (r: u32)
        ensures
            r == self.threshold,
    {
        self.threshold
    }

    pub fn is_admin(&self, addr: Account) -> (r: bool)
        ensures
            r == self.admins@.contains(addr),
    {
        contains_account(&self.admins, addr)
    }
}

} // verus!
