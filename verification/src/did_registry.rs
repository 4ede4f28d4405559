//! A registry of decentralized identifiers (DIDs): each DID maps to a
//! document of verification methods and services, with a revocation flag
//! and an optional expiry; the registry also records claims about subjects
//! and attestations of those claims.
//!
//! DID URIs, method and service ids are handled as their UTF-8 bytes.

use vstd::prelude::*;
use crate::ledger::Account;

verus! {

/// Why a call is rejected; `message` gives the contract's panic message.
#[derive(Copy, Clone, Debug, PartialEq, Eq, Structural)]
pub enum DidError {
    AlreadyInitialized,
    /// The registry has no owner yet.
    NotInitialized,
    InvalidDidUri,
    AlreadyRegistered,
    DidNotFound,
    /// A document is read that was never stored.
    DocumentMissing,
    MethodNotFound,
    ServiceExists,
    ServiceNotFound,
    /// The DID is expired or revoked.
    DidInvalid,
}

impl DidError {
    /// The message the contract panics with.
    pub fn message(&self) -> (r: &'static str)
        ensures
            r@ == match self {
                DidError::AlreadyInitialized => "already initialized"@,
                DidError::NotInitialized => "called `Option::unwrap()` on a `None` value"@,
                DidError::InvalidDidUri => "invalid DID URI format"@,
                DidError::AlreadyRegistered => "DID already registered"@,
                DidError::DidNotFound => "DID not found"@,
                DidError::DocumentMissing => "called `Option::unwrap()` on a `None` value"@,
                DidError::MethodNotFound => "verification method not found"@,
                DidError::ServiceExists => "service already exists"@,
                DidError::ServiceNotFound => "service not found"@,
                DidError::DidInvalid => "DID is invalid (expired or revoked)"@,
            },
    {
        match self {
            DidError::AlreadyInitialized => "already initialized",
            DidError::NotInitialized => "called `Option::unwrap()` on a `None` value",
            DidError::InvalidDidUri => "invalid DID URI format",
            DidError::AlreadyRegistered => "DID already registered",
            DidError::DidNotFound => "DID not found",
            DidError::DocumentMissing => "called `Option::unwrap()` on a `None` value",
            DidError::MethodNotFound => "verification method not found",
            DidError::ServiceExists => "service already exists",
            DidError::ServiceNotFound => "service not found",
            DidError::DidInvalid => "DID is invalid (expired or revoked)",
        }
    }
}

/// A public key that acts for a DID, and who controls it.
#[derive(Clone, Debug)]
pub struct VerificationMethod {
    pub id: Vec<u8>,
    pub controller: Account,
    pub public_key_multibase: Vec<u8>,
}

/// A service endpoint of a DID.
#[derive(Clone, Debug)]
pub struct Service {
    pub id: Vec<u8>,
    pub service_endpoint: Vec<u8>,
}

#[derive(Clone, Debug)]
pub struct DIDDocument {
    pub verification_method: Vec<VerificationMethod>,
    pub service: Vec<Service>,
}

#[derive(Copy, Clone, Debug, PartialEq, Eq, Structural)]
pub struct DIDMetadata {
    pub expiration_timestamp: Option<u64>,
    /// Nonzero once the DID is revoked.
    pub revocation_bitmap: u32,
}

/// A claim about a subject.
#[derive(Clone, Debug)]
pub struct Claim {
    pub subject: Account,
    pub data: Vec<u8>,
}

/// An attester's signed statement about the claim with hash `claim_hash`.
#[derive(Clone, Debug)]
pub struct Attestation {
    pub claim_hash: Vec<u8>,
    pub attester: Account,
    pub timestamp: u64,
    pub signature: Vec<u8>,
}

/// A registered DID with its document and metadata.
#[derive(Clone, Debug)]
pub struct DidRecord {
    pub did: Vec<u8>,
    pub document: DIDDocument,
    pub metadata: DIDMetadata,
}

pub open spec fn same_attestation(a: Attestation, b: Attestation) -> bool {
    a.claim_hash@ == b.claim_hash@ && a.attester == b.attester && a.timestamp == b.timestamp
        && a.signature@ == b.signature@
}

/// What a `did_updated` event reports was done to a DID.
#[derive(Copy, Clone, Debug, PartialEq, Eq, Structural)]
pub enum DidAction {
    Register,
    Revoke,
    SetExpiration,
    Update,
    AddVerificationMethod,
    RemoveVerificationMethod,
    RotateVerificationMethod,
}

impl DidAction {
    /// The action's name in the event.
    pub fn name(&self) -> (r: &'static str)
        ensures
            r@ == match self {
                DidAction::Register => "register"@,
                DidAction::Revoke => "revoke"@,
                DidAction::SetExpiration => "set_expiration"@,
                DidAction::Update => "update"@,
                DidAction::AddVerificationMethod => "add_verification_method"@,
                DidAction::RemoveVerificationMethod => "remove_verification_method"@,
                DidAction::RotateVerificationMethod => "rotate_verification_method"@,
            },
    {
        match self {
            DidAction::Register => "register",
            DidAction::Revoke => "revoke",
            DidAction::SetExpiration => "set_expiration",
            DidAction::Update => "update",
            DidAction::AddVerificationMethod => "add_verification_method",
            DidAction::RemoveVerificationMethod => "remove_verification_method",
            DidAction::RotateVerificationMethod => "rotate_verification_method",
        }
    }
}

/// The `did_updated` event: which DID, what was done, and the ledger time.
#[derive(Clone, Debug)]
pub struct DidUpdated {
    pub did: Vec<u8>,
    pub action: DidAction,
    pub timestamp: u64,
}

/// `after` is `before` with one `did_updated` event for `did` appended.
pub open spec fn published(before: Seq<DidUpdated>, after: Seq<DidUpdated>, did: Seq<u8>, action: DidAction, now: u64) -> bool {
    &&& after.len() == before.len() + 1
    &&& after.drop_last() == before
    &&& after.last().did@ == did
    &&& after.last().action == action
    &&& after.last().timestamp == now
}

fn publish(events: &mut Vec<DidUpdated>, did: &Vec<u8>, action: DidAction, now: u64)
    ensures
        published(old(events)@, final(events)@, did@, action, now),
{
    let ghost before = events@;
    events.push(DidUpdated { did: copy_bytes(did), action, timestamp: now });
    assert(events@.drop_last() =~= before);
}

/// "did:" as bytes.
pub open spec fn did_prefix() -> Seq<u8> {
    seq![100u8, 105u8, 100u8, 58u8]
}

/// A DID URI starts with "did:".
pub open spec fn valid_did_uri(did: Seq<u8>) -> bool {
    did.len() >= 4 && did.subrange(0, 4) == did_prefix()
}

/// The position of the record for `did`.
pub open spec fn record_index(records: Seq<DidRecord>, did: Seq<u8>) -> Option<int> {
    if exists|i: int| 0 <= i < records.len() && (#[trigger] records[i]).did@ == did {
        Some(choose|i: int| 0 <= i < records.len() && (#[trigger] records[i]).did@ == did)
    } else {
        None
    }
}

/// Whether a DID is valid at time `now`: registered, not revoked and not
/// expired.
pub open spec fn valid_at(records: Seq<DidRecord>, did: Seq<u8>, now: u64) -> bool {
    match record_index(records, did) {
        None => false,
        Some(i) => {
            let m = records[i].metadata;
            m.revocation_bitmap == 0 && match m.expiration_timestamp {
                Some(e) => now < e,
                None => true,
            }
        },
    }
}

/// The claims about `subject`, in the order they were added.
pub open spec fn claims_about(log: Seq<Claim>, subject: Account) -> Seq<Claim>
    decreases log.len(),
{
    if log.len() == 0 {
        Seq::empty()
    } else if log.last().subject == subject {
        claims_about(log.drop_last(), subject).push(log.last())
    } else {
        claims_about(log.drop_last(), subject)
    }
}

/// The attestations of the claim with hash `hash`, in the order they were
/// added.
pub open spec fn attestations_of(log: Seq<Attestation>, hash: Seq<u8>) -> Seq<Attestation>
    decreases log.len(),
{
    if log.len() == 0 {
        Seq::empty()
    } else if log.last().claim_hash@ == hash {
        attestations_of(log.drop_last(), hash).push(log.last())
    } else {
        attestations_of(log.drop_last(), hash)
    }
}

/// `did` is registered and revoked.
pub open spec fn revoked(records: Seq<DidRecord>, did: Seq<u8>) -> bool {
    record_index(records, did) matches Some(i) && records[i].metadata.revocation_bitmap != 0
}

/// No DID is registered twice.
pub open spec fn dids_unique(records: Seq<DidRecord>) -> bool {
    forall|i: int, j: int| 0 <= i < j < records.len() ==> records[i].did@ != records[j].did@
}

/// In a registry without repeated DIDs, a DID's record is the one that
/// holds it.
proof fn lemma_index_of(records: Seq<DidRecord>, did: Seq<u8>, j: int)
    requires
        dids_unique(records),
        0 <= j < records.len(),
        records[j].did@ == did,
    ensures
        record_index(records, did) == Some(j),
{
    assert(exists|i: int| 0 <= i < records.len() && (#[trigger] records[i]).did@ == did) by {
        assert(records[j].did@ == did);
    }
    let c = choose|i: int| 0 <= i < records.len() && (#[trigger] records[i]).did@ == did;
    if c < j {
        assert(records[c].did@ != records[j].did@);
    }
    if c > j {
        assert(records[j].did@ != records[c].did@);
    }
}

/// Replacing a record by one with the same DID that stays revoked if it
/// was keeps every revoked DID revoked.
proof fn lemma_update_keeps_revoked(r0: Seq<DidRecord>, i: int, rec: DidRecord)
    requires
        dids_unique(r0),
        0 <= i < r0.len(),
        rec.did@ == r0[i].did@,
        r0[i].metadata.revocation_bitmap != 0 ==> rec.metadata.revocation_bitmap != 0,
    ensures
        forall|d: Seq<u8>| revoked(r0, d) ==> #[trigger] revoked(r0.update(i, rec), d),
{
    let r1 = r0.update(i, rec);
    assert(dids_unique(r1)) by {
        assert forall|a: int, b: int| 0 <= a < b < r1.len() implies r1[a].did@ != r1[b].did@ by {
            assert(r1[a].did@ == r0[a].did@);
            assert(r1[b].did@ == r0[b].did@);
        }
    }
    assert forall|d: Seq<u8>| revoked(r0, d) implies #[trigger] revoked(r1, d) by {
        let j = record_index(r0, d).unwrap();
        let c = choose|k: int| 0 <= k < r0.len() && (#[trigger] r0[k]).did@ == d;
        assert(0 <= j < r0.len() && r0[j].did@ == d);
        assert(r1[j].did@ == d);
        lemma_index_of(r1, d, j);
    }
}

/// Adding a record for a new DID keeps every revoked DID revoked.
proof fn lemma_push_keeps_revoked(r0: Seq<DidRecord>, rec: DidRecord)
    requires
        dids_unique(r0.push(rec)),
    ensures
        forall|d: Seq<u8>| revoked(r0, d) ==> #[trigger] revoked(r0.push(rec), d),
{
    let r1 = r0.push(rec);
    assert(dids_unique(r0)) by {
        assert forall|a: int, b: int| 0 <= a < b < r0.len() implies r0[a].did@ != r0[b].did@ by {
            assert(r1[a] == r0[a] && r1[b] == r0[b]);
        }
    }
    assert forall|d: Seq<u8>| revoked(r0, d) implies #[trigger] revoked(r1, d) by {
        let j = record_index(r0, d).unwrap();
        let c = choose|k: int| 0 <= k < r0.len() && (#[trigger] r0[k]).did@ == d;
        assert(r1[j] == r0[j]);
        lemma_index_of(r1, d, j);
    }
}

/// Every DID revoked in `before` is still revoked in `after`: what each
/// call that changes the registry ensures of the records it leaves.
pub open spec fn keeps_revocations(before: Seq<DidRecord>, after: Seq<DidRecord>) -> bool {
    forall|d: Seq<u8>| revoked(before, d) ==> #[trigger] revoked(after, d)
}

/// The records of a run of registry calls: each state is the one before it
/// after one call, and every call keeps revocations.
pub open spec fn is_history(history: Seq<Seq<DidRecord>>) -> bool {
    forall|k: int| 0 <= k < history.len() - 1 ==> keeps_revocations(#[trigger] history[k], history[k + 1])
}

proof fn lemma_revoked_later(history: Seq<Seq<DidRecord>>, i: int, j: int, did: Seq<u8>)
    requires
        is_history(history),
        0 <= i <= j < history.len(),
        revoked(history[i], did),
    ensures
        revoked(history[j], did),
    decreases j - i,
{
    if j > i {
        lemma_revoked_later(history, i, j - 1, did);
        assert(keeps_revocations(history[j - 1], history[j - 1 + 1]));
    }
}

/// A revocation is never undone: once `revoke_did` has revoked a DID, the
/// DID is invalid in every later state of the registry, at any time, since
/// no call clears the revocation (each one keeps revocations, as its
/// contract states).
pub proof fn law_revocation_persists(history: Seq<Seq<DidRecord>>, i: int, j: int, did: Seq<u8>, now: u64)
    requires
        is_history(history),
        0 <= i <= j < history.len(),
        revoked(history[i], did),
    ensures
        revoked(history[j], did),
        !valid_at(history[j], did, now),
{
    lemma_revoked_later(history, i, j, did);
}

/// Whether `attester` controls a verification method of some registered DID.
pub open spec fn controls_a_method(records: Seq<DidRecord>, attester: Account) -> bool {
    exists|i: int, j: int| 0 <= i < records.len() && 0 <= j < records[i].document.verification_method@.len()
        && (#[trigger] records[i].document.verification_method@[j]).controller == attester
}

/// Byte-wise equality.
pub fn same_bytes(a: &Vec<u8>, b: &Vec<u8>) -> (r: bool)
    ensures
        r == (a@ == b@),
{
    if a.len() != b.len() {
        return false;
    }
    let mut i: usize = 0;
    while i < a.len()
        invariant
            a@.len() == b@.len(),
            i <= a@.len(),
            forall|j: int| 0 <= j < i ==> a@[j] == b@[j],
        decreases a@.len() - i,
    {
        if a[i] != b[i] {
            return false;
        }
        i += 1;
    }
    assert(a@ =~= b@);
    true
}

fn copy_bytes(b: &Vec<u8>) -> (r: Vec<u8>)
    ensures
        r@ == b@,
{
    let r = b.clone();
    assert(r@ =~= b@);
    r
}

/// `Err(InvalidDidUri)` unless the URI starts with "did:".
pub fn validate_did_uri(did: &Vec<u8>) -> (r: Result<(), DidError>)
    ensures
        r == (if valid_did_uri(did@) { Ok(()) } else { Err(DidError::InvalidDidUri) }),
{
    if did.len() < 4 {
        return Err(DidError::InvalidDidUri);
    }
    if did[0] == 100u8 && did[1] == 105u8 && did[2] == 100u8 && did[3] == 58u8 {
        assert(did@.subrange(0, 4) =~= did_prefix());
        Ok(())
    } else {
        assert(did@.subrange(0, 4) != did_prefix()) by {
            let p = did@.subrange(0, 4);
            assert(p[0] == did@[0] && p[1] == did@[1] && p[2] == did@[2] && p[3] == did@[3]);
        }
        Err(DidError::InvalidDidUri)
    }
}

/// The contract's stored state.
pub struct DIDRegistry {
    pub owner: Option<Account>,
    /// Registered DIDs, in registration order (the DID index).
    pub records: Vec<DidRecord>,
    /// Claims, in the order they were added.
    pub claims: Vec<Claim>,
    /// Attestations, in the order they were added.
    pub attestations: Vec<Attestation>,
}

impl DIDRegistry {
    /// No DID is registered twice.
    pub open spec fn wf(&self) -> bool {
        forall|i: int, j: int| 0 <= i < j < self.records@.len() ==> self.records@[i].did@ != self.records@[j].did@
    }

    pub fn new() -> (r: DIDRegistry)
        ensures
            r.wf(),
            r.owner is None,
            r.records@.len() == 0,
            r.claims@.len() == 0,
            r.attestations@.len() == 0,
    {
        DIDRegistry { owner: None, records: Vec::new(), claims: Vec::new(), attestations: Vec::new() }
    }

    /// The owner, who alone may change the registry (the contract panics
    /// before `initialize`).
    pub fn owner(&self) -> (r: Account)
        requires
            self.owner is Some,
        ensures
            r == self.owner.unwrap(),
    {
        self.owner.unwrap()
    }

    /// Tells whether the registry has an owner (every change needs one; the
    /// contract panics without).
    pub fn check_owner(&self) -> (r: Result<(), DidError>)
        ensures
            r == (if self.owner is None { Err(DidError::NotInitialized) } else { Ok(()) }),
    {
        match self.owner {
            Some(_) => Ok(()),
            None => Err(DidError::NotInitialized),
        }
    }

    /// Tells whether `initialize` may run ("already initialized" otherwise).
    pub fn check_initialize(&self) -> (r: Result<(), DidError>)
        ensures
            r == (if self.owner is Some { Err(DidError::AlreadyInitialized) } else { Ok(()) }),
    {
        if self.owner.is_some() { Err(DidError::AlreadyInitialized) } else { Ok(()) }
    }

    /// Tells whether `register_did` may run for `did`, and if not, with
    /// which error the contract stops.
    pub fn check_register(&self, did: &Vec<u8>) -> (r: Result<(), DidError>)
        requires
            self.wf(),
        ensures
            r == (if self.owner is None {
                Err(DidError::NotInitialized)
            } else if !valid_did_uri(did@) {
                Err(DidError::InvalidDidUri)
            } else if record_index(self.records@, did@) is Some {
                Err(DidError::AlreadyRegistered)
            } else {
                Ok(())
            }),
    {
        match self.check_owner() {
            Ok(()) => {},
            Err(e) => return Err(e),
        }
        match validate_did_uri(did) {
            Ok(()) => {},
            Err(e) => return Err(e),
        }
        if self.find(did).is_some() {
            return Err(DidError::AlreadyRegistered);
        }
        Ok(())
    }

    /// Tells whether a call that changes the record of `did` may run:
    /// `missing` is the error the call stops with when `did` has no record.
    pub fn check_record(&self, did: &Vec<u8>, missing: DidError) -> (r: Result<(), DidError>)
        requires
            self.wf(),
        ensures
            r == (if self.owner is None {
                Err(DidError::NotInitialized)
            } else if record_index(self.records@, did@) is None {
                Err(missing)
            } else {
                Ok(())
            }),
    {
        match self.check_owner() {
            Ok(()) => {},
            Err(e) => return Err(e),
        }
        if self.find(did).is_none() {
            return Err(missing);
        }
        Ok(())
    }

    /// Tells whether `remove_verification_method` or
    /// `rotate_verification_method` may run for `method_id` of `did`.
    pub fn check_method(&self, did: &Vec<u8>, method_id: &Vec<u8>) -> (r: Result<(), DidError>)
        requires
            self.wf(),
        ensures
            r == (if self.owner is None {
                Err(DidError::NotInitialized)
            } else if record_index(self.records@, did@) is None {
                Err(DidError::DocumentMissing)
            } else if first_method(self.records@[record_index(self.records@, did@).unwrap()]
                .document.verification_method@, method_id@) is None {
                Err(DidError::MethodNotFound)
            } else {
                Ok(())
            }),
    {
        match self.check_owner() {
            Ok(()) => {},
            Err(e) => return Err(e),
        }
        let i = match self.find(did) {
            Some(i) => i,
            None => return Err(DidError::DocumentMissing),
        };
        if find_method(&self.records[i].document.verification_method, method_id).is_none() {
            return Err(DidError::MethodNotFound);
        }
        Ok(())
    }

    /// Tells whether `add_service` (`adding`) or `remove_service` (not
    /// `adding`) may run for the service `service_id` of `did`.
    pub fn check_service(&self, did: &Vec<u8>, service_id: &Vec<u8>, adding: bool) -> (r: Result<(), DidError>)
        requires
            self.wf(),
        ensures
            r == (if self.owner is None {
                Err(DidError::NotInitialized)
            } else if record_index(self.records@, did@) is None {
                Err(DidError::DocumentMissing)
            } else if adding && first_service(self.records@[record_index(self.records@, did@).unwrap()]
                .document.service@, service_id@) is Some {
                Err(DidError::ServiceExists)
            } else if !adding && first_service(self.records@[record_index(self.records@, did@).unwrap()]
                .document.service@, service_id@) is None {
                Err(DidError::ServiceNotFound)
            } else {
                Ok(())
            }),
    {
        match self.check_owner() {
            Ok(()) => {},
            Err(e) => return Err(e),
        }
        let i = match self.find(did) {
            Some(i) => i,
            None => return Err(DidError::DocumentMissing),
        };
        let found = find_service(&self.records[i].document.service, service_id).is_some();
        if adding && found {
            return Err(DidError::ServiceExists);
        }
        if !adding && !found {
            return Err(DidError::ServiceNotFound);
        }
        Ok(())
    }

    /// Sets the owner, once.
    pub fn initialize(&mut self, owner: Account)
        requires
            old(self).wf(),
            old(self).owner is None,
        ensures
            final(self).wf(),
            keeps_revocations(old(self).records@, final(self).records@),
            final(self).owner == Some(owner),
            final(self).records@ == old(self).records@,
            final(self).claims@ == old(self).claims@,
            final(self).attestations@ == old(self).attestations@,
    {
        self.owner = Some(owner);
    }

    /// The position of the record for `did`.
    fn find(&self, did: &Vec<u8>) -> (r: Option<usize>)
        requires
            self.wf(),
        ensures
            r is None <==> record_index(self.records@, did@) is None,
            r matches Some(i) ==> record_index(self.records@, did@) == Some(i as int) && i < self.records@.len(),
    {
        let mut i: usize = 0;
        while i < self.records.len()
            invariant
                self.wf(),
                i <= self.records@.len(),
                forall|j: int| 0 <= j < i ==> self.records@[j].did@ != did@,
            decreases self.records@.len() - i,
        {
            if same_bytes(&self.records[i].did, did) {
                proof {
                    let c = choose|k: int| 0 <= k < self.records@.len() && (#[trigger] self.records@[k]).did@ == did@;
                    assert(self.records@[i as int].did@ == did@);
                    if c != i {
                        assert(self.records@[c].did@ == did@);
                    }
                }
                return Some(i);
            }
            i += 1;
        }
        None
    }

    /// Registers `did` with `document` and an optional expiry; the URI must
    /// start with "did:" and the DID must be new (the contract panics
    /// otherwise; `check_register` names the case).
    pub fn register_did(&mut self, did: Vec<u8>, document: DIDDocument, expiration_timestamp: Option<u64>, now: u64, events: &mut Vec<DidUpdated>)
        requires
            old(self).wf(),
            old(self).owner is Some,
            valid_did_uri(did@),
            record_index(old(self).records@, did@) is None,
        ensures
            final(self).wf(),
            keeps_revocations(old(self).records@, final(self).records@),
            published(old(events)@, final(events)@, did@, DidAction::Register, now),
            final(self).records@ == old(self).records@.push(DidRecord {
                did, document, metadata: DIDMetadata { expiration_timestamp, revocation_bitmap: 0 },
            }),
            final(self).owner == old(self).owner,
            final(self).claims@ == old(self).claims@,
            final(self).attestations@ == old(self).attestations@,
    {
        let ghost r0 = self.records@;
        let ghost d = did@;
        proof {
            assert forall|k: int| 0 <= k < r0.len() implies r0[k].did@ != d by {
                if r0[k].did@ == d {
                    assert(record_index(r0, d) is Some);
                }
            }
        }
        publish(events, &did, DidAction::Register, now);
        self.records.push(DidRecord { did, document, metadata: DIDMetadata { expiration_timestamp, revocation_bitmap: 0 } });
        proof {
            lemma_push_keeps_revoked(r0, self.records@.last());
            assert(self.records@ =~= r0.push(self.records@.last()));
        }
    }

    /// Marks `did` revoked (the contract panics on an unknown DID;
    /// `check_record` names the case).
    pub fn revoke_did(&mut self, did: &Vec<u8>, now: u64, events: &mut Vec<DidUpdated>)
        requires
            old(self).wf(),
            old(self).owner is Some,
            record_index(old(self).records@, did@) is Some,
        ensures
            final(self).wf(),
            keeps_revocations(old(self).records@, final(self).records@),
            revoked(final(self).records@, did@),
            published(old(events)@, final(events)@, did@, DidAction::Revoke, now),
            ({
                let i = record_index(old(self).records@, did@).unwrap();
                let rec = old(self).records@[i];
                &&& final(self).records@ == old(self).records@.update(i, DidRecord {
                    metadata: DIDMetadata { revocation_bitmap: 1, ..rec.metadata }, ..rec
                })
                &&& final(self).owner == old(self).owner
                &&& final(self).claims@ == old(self).claims@
                &&& final(self).attestations@ == old(self).attestations@
            }),
    {
        let i = self.find(did).unwrap();
        let m = self.records[i].metadata;
        self.set_metadata(i, DIDMetadata { revocation_bitmap: 1, ..m });
        proof {
            assert(self.records@[i as int].did@ == did@);
            lemma_index_of(self.records@, did@, i as int);
        }
        publish(events, did, DidAction::Revoke, now);
    }

    /// Replaces the metadata of record `i`.
    fn set_metadata(&mut self, i: usize, metadata: DIDMetadata)
        requires
            old(self).wf(),
            i < old(self).records@.len(),
            old(self).records@[i as int].metadata.revocation_bitmap != 0 ==> metadata.revocation_bitmap != 0,
        ensures
            final(self).wf(),
            keeps_revocations(old(self).records@, final(self).records@),
            final(self).records@ == old(self).records@.update(i as int, DidRecord { metadata, ..old(self).records@[i as int] }),
            final(self).owner == old(self).owner,
            final(self).claims@ == old(self).claims@,
            final(self).attestations@ == old(self).attestations@,
    {
        let ghost r0 = self.records@;
        let mut recs = Vec::new();
        std::mem::swap(&mut recs, &mut self.records);
        let mut rec = recs.remove(i);
        rec.metadata = metadata;
        recs.insert(i, rec);
        self.records = recs;
        proof {
            assert(self.records@ =~= r0.update(i as int, DidRecord { metadata, ..r0[i as int] }));
            lemma_update_keeps_revoked(r0, i as int, DidRecord { metadata, ..r0[i as int] });
            assert forall|a: int, b: int| 0 <= a < b < self.records@.len() implies
                self.records@[a].did@ != self.records@[b].did@ by {
                assert(self.records@[a].did@ == r0[a].did@);
                assert(self.records@[b].did@ == r0[b].did@);
            }
        }
    }

    /// Replaces the document of record `i`.
    fn set_document(&mut self, i: usize, document: DIDDocument)
        requires
            old(self).wf(),
            i < old(self).records@.len(),
        ensures
            final(self).wf(),
            keeps_revocations(old(self).records@, final(self).records@),
            final(self).records@ == old(self).records@.update(i as int, DidRecord { document, ..old(self).records@[i as int] }),
            final(self).owner == old(self).owner,
            final(self).claims@ == old(self).claims@,
            final(self).attestations@ == old(self).attestations@,
    {
        let ghost r0 = self.records@;
        let ghost d = document;
        let mut recs = Vec::new();
        std::mem::swap(&mut recs, &mut self.records);
        let mut rec = recs.remove(i);
        rec.document = document;
        recs.insert(i, rec);
        self.records = recs;
        proof {
            assert(self.records@ =~= r0.update(i as int, DidRecord { document: d, ..r0[i as int] }));
            lemma_update_keeps_revoked(r0, i as int, DidRecord { document: d, ..r0[i as int] });
            assert forall|a: int, b: int| 0 <= a < b < self.records@.len() implies
                self.records@[a].did@ != self.records@[b].did@ by {
                assert(self.records@[a].did@ == r0[a].did@);
                assert(self.records@[b].did@ == r0[b].did@);
            }
        }
    }

    /// Putting a record back at its place, with its DID unchanged, is an
    /// update of that place and keeps the DIDs unique.
    proof fn lemma_reinsert(&self, r0: Seq<DidRecord>, i: int)
        requires
            0 <= i < r0.len(),
            forall|a: int, b: int| 0 <= a < b < r0.len() ==> r0[a].did@ != r0[b].did@,
            self.records@.len() == r0.len(),
            forall|j: int| 0 <= j < r0.len() && j != i ==> self.records@[j] == r0[j],
            self.records@[i].did == r0[i].did,
            self.records@[i].metadata.revocation_bitmap == r0[i].metadata.revocation_bitmap,
        ensures
            self.wf(),
            self.records@ == r0.update(i, self.records@[i]),
            forall|d: Seq<u8>| revoked(r0, d) ==> #[trigger] revoked(self.records@, d),
    {
        lemma_update_keeps_revoked(r0, i, self.records@[i]);
        assert(self.records@ =~= r0.update(i, self.records@[i]));
        assert forall|a: int, b: int| 0 <= a < b < self.records@.len() implies
            self.records@[a].did@ != self.records@[b].did@ by {
            assert(self.records@[a].did@ == r0[a].did@);
            assert(self.records@[b].did@ == r0[b].did@);
        }
    }

    /// Sets or clears the expiry of `did` (the contract panics on an unknown
    /// DID; `check_record` names the case).
    pub fn set_expiration(&mut self, did: &Vec<u8>, expiration_timestamp: Option<u64>, now: u64, events: &mut Vec<DidUpdated>)
        requires
            old(self).wf(),
            old(self).owner is Some,
            record_index(old(self).records@, did@) is Some,
        ensures
            final(self).wf(),
            keeps_revocations(old(self).records@, final(self).records@),
            published(old(events)@, final(events)@, did@, DidAction::SetExpiration, now),
            ({
                let i = record_index(old(self).records@, did@).unwrap();
                let rec = old(self).records@[i];
                &&& final(self).records@ == old(self).records@.update(i, DidRecord {
                    metadata: DIDMetadata { expiration_timestamp, ..rec.metadata }, ..rec
                })
                &&& final(self).owner == old(self).owner
                &&& final(self).claims@ == old(self).claims@
                &&& final(self).attestations@ == old(self).attestations@
            }),
    {
        let i = self.find(did).unwrap();
        let m = self.records[i].metadata;
        self.set_metadata(i, DIDMetadata { expiration_timestamp, ..m });
        publish(events, did, DidAction::SetExpiration, now);
    }

    /// Whether `did` is registered, not revoked and not expired at `now`.
    pub fn is_did_valid(&self, now: u64, did: &Vec<u8>) -> (r: bool)
        requires
            self.wf(),
        ensures
            r == valid_at(self.records@, did@, now),
    {
        match self.find(did) {
            None => false,
            Some(i) => {
                let m = self.records[i].metadata;
                if m.revocation_bitmap != 0 {
                    return false;
                }
                match m.expiration_timestamp {
                    Some(e) => now < e,
                    None => true,
                }
            },
        }
    }

    /// Replaces the document of `did` (the contract panics on an unknown
    /// DID; `check_record` names the case).
    pub fn update_did_document(&mut self, did: &Vec<u8>, document: DIDDocument, now: u64, events: &mut Vec<DidUpdated>)
        requires
            old(self).wf(),
            old(self).owner is Some,
            record_index(old(self).records@, did@) is Some,
        ensures
            final(self).wf(),
            keeps_revocations(old(self).records@, final(self).records@),
            published(old(events)@, final(events)@, did@, DidAction::Update, now),
            ({
                let i = record_index(old(self).records@, did@).unwrap();
                &&& final(self).records@ == old(self).records@.update(i, DidRecord { document, ..old(self).records@[i] })
                &&& final(self).owner == old(self).owner
                &&& final(self).claims@ == old(self).claims@
                &&& final(self).attestations@ == old(self).attestations@
            }),
    {
        let i = self.find(did).unwrap();
        self.set_document(i, document);
        publish(events, did, DidAction::Update, now);
    }

    /// Adds a verification method to `did`'s document (the contract panics
    /// when no document is stored; `check_record` names the case).
    pub fn add_verification_method(&mut self, did: &Vec<u8>, method: VerificationMethod, now: u64, events: &mut Vec<DidUpdated>)
        requires
            old(self).wf(),
            old(self).owner is Some,
            record_index(old(self).records@, did@) is Some,
        ensures
            final(self).wf(),
            keeps_revocations(old(self).records@, final(self).records@),
            published(old(events)@, final(events)@, did@, DidAction::AddVerificationMethod, now),
            ({
                let i = record_index(old(self).records@, did@).unwrap();
                let doc = old(self).records@[i].document;
                &&& final(self).records@[i].document.verification_method@ == doc.verification_method@.push(method)
                &&& final(self).records@[i].document.service@ == doc.service@
                &&& final(self).records@ == old(self).records@.update(i, final(self).records@[i])
                &&& final(self).records@[i].did == old(self).records@[i].did
                &&& final(self).records@[i].metadata == old(self).records@[i].metadata
                &&& final(self).owner == old(self).owner
                &&& final(self).claims@ == old(self).claims@
                &&& final(self).attestations@ == old(self).attestations@
            }),
    {
        let i = self.find(did).unwrap();
        let ghost r0 = self.records@;
        let mut rec = self.records.remove(i);
        rec.document.verification_method.push(method);
        self.records.insert(i, rec);
        proof {
            self.lemma_reinsert(r0, i as int);
        }
        publish(events, did, DidAction::AddVerificationMethod, now);
    }

    /// Removes the first verification method with id `method_id` (the
    /// contract panics when there is none; `check_method` names the case).
    pub fn remove_verification_method(&mut self, did: &Vec<u8>, method_id: &Vec<u8>, now: u64, events: &mut Vec<DidUpdated>)
        requires
            old(self).wf(),
            old(self).owner is Some,
            record_index(old(self).records@, did@) is Some,
            first_method(old(self).records@[record_index(old(self).records@, did@).unwrap()]
                .document.verification_method@, method_id@) is Some,
        ensures
            final(self).wf(),
            keeps_revocations(old(self).records@, final(self).records@),
            published(old(events)@, final(events)@, did@, DidAction::RemoveVerificationMethod, now),
            ({
                let i = record_index(old(self).records@, did@).unwrap();
                let doc = old(self).records@[i].document;
                let k = first_method(doc.verification_method@, method_id@).unwrap();
                &&& final(self).records@[i].document.verification_method@ == doc.verification_method@.remove(k)
                &&& final(self).records@[i].document.service@ == doc.service@
                &&& final(self).records@ == old(self).records@.update(i, final(self).records@[i])
                &&& final(self).records@[i].did == old(self).records@[i].did
                &&& final(self).records@[i].metadata == old(self).records@[i].metadata
                &&& final(self).owner == old(self).owner
            }),
    {
        let i = self.find(did).unwrap();
        let k = find_method(&self.records[i].document.verification_method, method_id).unwrap();
        let ghost r0 = self.records@;
        let mut rec = self.records.remove(i);
        rec.document.verification_method.remove(k);
        self.records.insert(i, rec);
        proof {
            self.lemma_reinsert(r0, i as int);
        }
        publish(events, did, DidAction::RemoveVerificationMethod, now);
    }

    /// Replaces the public key of the first verification method with id
    /// `method_id` (the contract panics with "verification method not found"
    /// when there is none; `check_method` names the case).
    #[verifier::rlimit(40)]
    pub fn rotate_verification_method(
        &mut self,
        did: &Vec<u8>,
        method_id: &Vec<u8>,
        new_public_key_multibase: &Vec<u8>,
        now: u64,
        events: &mut Vec<DidUpdated>,
    )
        requires
            old(self).wf(),
            old(self).owner is Some,
            record_index(old(self).records@, did@) is Some,
            first_method(old(self).records@[record_index(old(self).records@, did@).unwrap()]
                .document.verification_method@, method_id@) is Some,
        ensures
            final(self).wf(),
            keeps_revocations(old(self).records@, final(self).records@),
            published(old(events)@, final(events)@, did@, DidAction::RotateVerificationMethod, now),
            ({
                let i = record_index(old(self).records@, did@).unwrap();
                let doc = old(self).records@[i].document;
                let k = first_method(doc.verification_method@, method_id@).unwrap();
                let new_methods = final(self).records@[i].document.verification_method@;
                &&& new_methods.len() == doc.verification_method@.len()
                &&& forall|j: int| 0 <= j < new_methods.len() && j != k ==> new_methods[j] == doc.verification_method@[j]
                &&& new_methods[k].id == doc.verification_method@[k].id
                &&& new_methods[k].controller == doc.verification_method@[k].controller
                &&& new_methods[k].public_key_multibase@ == new_public_key_multibase@
                &&& final(self).records@[i].document.service@ == doc.service@
                &&& final(self).records@ == old(self).records@.update(i, final(self).records@[i])
                &&& final(self).records@[i].did == old(self).records@[i].did
                &&& final(self).records@[i].metadata == old(self).records@[i].metadata
                &&& final(self).owner == old(self).owner
            }),
    {
        let i = self.find(did).unwrap();
        let k = find_method(&self.records[i].document.verification_method, method_id).unwrap();
        let ghost r0 = self.records@;
        let mut rec = self.records.remove(i);
        let ghost before = rec.document.verification_method@;
        let mut m = rec.document.verification_method.remove(k);
        m.public_key_multibase = copy_bytes(new_public_key_multibase);
        rec.document.verification_method.insert(k, m);
        proof {
            assert(rec.document.verification_method@ =~= before.update(k as int, m));
        }
        self.records.insert(i, rec);
        proof {
            self.lemma_reinsert(r0, i as int);
        }
        publish(events, did, DidAction::RotateVerificationMethod, now);
    }

    /// Adds a service to `did`'s document; its id must be new there (the
    /// contract panics otherwise; `check_service` names the case).
    pub fn add_service(&mut self, did: &Vec<u8>, service: Service)
        requires
            old(self).wf(),
            old(self).owner is Some,
            record_index(old(self).records@, did@) is Some,
            first_service(old(self).records@[record_index(old(self).records@, did@).unwrap()]
                .document.service@, service.id@) is None,
        ensures
            final(self).wf(),
            keeps_revocations(old(self).records@, final(self).records@),
            ({
                let i = record_index(old(self).records@, did@).unwrap();
                let doc = old(self).records@[i].document;
                &&& final(self).records@[i].document.service@ == doc.service@.push(service)
                &&& final(self).records@[i].document.verification_method@ == doc.verification_method@
                &&& final(self).records@ == old(self).records@.update(i, final(self).records@[i])
                &&& final(self).records@[i].did == old(self).records@[i].did
                &&& final(self).records@[i].metadata == old(self).records@[i].metadata
                &&& final(self).owner == old(self).owner
            }),
    {
        let i = self.find(did).unwrap();
        let ghost r0 = self.records@;
        let mut rec = self.records.remove(i);
        rec.document.service.push(service);
        self.records.insert(i, rec);
        proof {
            self.lemma_reinsert(r0, i as int);
        }
    }

    /// Removes the first service with id `service_id` (the contract panics
    /// when there is none; `check_service` names the case).
    pub fn remove_service(&mut self, did: &Vec<u8>, service_id: &Vec<u8>)
        requires
            old(self).wf(),
            old(self).owner is Some,
            record_index(old(self).records@, did@) is Some,
            first_service(old(self).records@[record_index(old(self).records@, did@).unwrap()]
                .document.service@, service_id@) is Some,
        ensures
            final(self).wf(),
            keeps_revocations(old(self).records@, final(self).records@),
            ({
                let i = record_index(old(self).records@, did@).unwrap();
                let doc = old(self).records@[i].document;
                let k = first_service(doc.service@, service_id@).unwrap();
                &&& final(self).records@[i].document.service@ == doc.service@.remove(k)
                &&& final(self).records@[i].document.verification_method@ == doc.verification_method@
                &&& final(self).records@ == old(self).records@.update(i, final(self).records@[i])
                &&& final(self).records@[i].did == old(self).records@[i].did
                &&& final(self).records@[i].metadata == old(self).records@[i].metadata
                &&& final(self).owner == old(self).owner
            }),
    {
        let i = self.find(did).unwrap();
        let k = find_service(&self.records[i].document.service, service_id).unwrap();
        let ghost r0 = self.records@;
        let mut rec = self.records.remove(i);
        rec.document.service.remove(k);
        self.records.insert(i, rec);
        proof {
            self.lemma_reinsert(r0, i as int);
        }
    }

    /// Records a claim (the contract panics before `initialize`).
    pub fn add_claim(&mut self, claim: Claim)
        requires
            old(self).wf(),
            old(self).owner is Some,
        ensures
            final(self).wf(),
            keeps_revocations(old(self).records@, final(self).records@),
            final(self).claims@ == old(self).claims@.push(claim),
            final(self).records@ == old(self).records@,
            final(self).attestations@ == old(self).attestations@,
            final(self).owner == old(self).owner,
    {
        self.claims.push(claim);
    }

    /// Records an attestation (the contract panics before `initialize`).
    pub fn attest_claim(&mut self, attestation: Attestation)
        requires
            old(self).wf(),
            old(self).owner is Some,
        ensures
            final(self).wf(),
            keeps_revocations(old(self).records@, final(self).records@),
            final(self).attestations@ == old(self).attestations@.push(attestation),
            final(self).records@ == old(self).records@,
            final(self).claims@ == old(self).claims@,
            final(self).owner == old(self).owner,
    {
        self.attestations.push(attestation);
    }

    /// The document of `did`, which must be valid at `now` (the contract
    /// panics with "DID is invalid (expired or revoked)" otherwise;
    /// `is_did_valid` tells).
    pub fn get_did_document(&self, now: u64, did: &Vec<u8>) -> (r: &DIDDocument)
        requires
            self.wf(),
            valid_at(self.records@, did@, now),
        ensures
            *r == self.records@[record_index(self.records@, did@).unwrap()].document,
    {
        let i = self.find(did).unwrap();
        &self.records[i].document
    }

    /// The claims about `subject`, in the order they were added.
    pub fn get_claims(&self, subject: Account) -> (r: Vec<&Claim>)
        ensures
            r@.len() == claims_about(self.claims@, subject).len(),
            forall|i: int| 0 <= i < r@.len() ==> *r@[i] == claims_about(self.claims@, subject)[i],
    {
        let mut out: Vec<&Claim> = Vec::new();
        let mut i: usize = 0;
        while i < self.claims.len()
            invariant
                i <= self.claims@.len(),
                out@.len() == claims_about(self.claims@.subrange(0, i as int), subject).len(),
                forall|j: int| 0 <= j < out@.len() ==> *out@[j] == claims_about(self.claims@.subrange(0, i as int), subject)[j],
            decreases self.claims@.len() - i,
        {
            proof {
                assert(self.claims@.subrange(0, i + 1 as int).drop_last() =~= self.claims@.subrange(0, i as int));
            }
            if self.claims[i].subject == subject {
                out.push(&self.claims[i]);
            }
            i += 1;
        }
        assert(self.claims@.subrange(0, self.claims@.len() as int) =~= self.claims@);
        out
    }

    /// The attestations of the claim with hash `claim_hash`, in the order
    /// they were added.
    pub fn get_attestations(&self, claim_hash: &Vec<u8>) -> (r: Vec<&Attestation>)
        ensures
            r@.len() == attestations_of(self.attestations@, claim_hash@).len(),
            forall|i: int| 0 <= i < r@.len() ==> *r@[i] == attestations_of(self.attestations@, claim_hash@)[i],
    {
        let mut out: Vec<&Attestation> = Vec::new();
        let mut i: usize = 0;
        while i < self.attestations.len()
            invariant
                i <= self.attestations@.len(),
                out@.len() == attestations_of(self.attestations@.subrange(0, i as int), claim_hash@).len(),
                forall|j: int| 0 <= j < out@.len() ==>
                    *out@[j] == attestations_of(self.attestations@.subrange(0, i as int), claim_hash@)[j],
            decreases self.attestations@.len() - i,
        {
            proof {
                assert(self.attestations@.subrange(0, i + 1 as int).drop_last() =~= self.attestations@.subrange(0, i as int));
            }
            if same_bytes(&self.attestations[i].claim_hash, claim_hash) {
                out.push(&self.attestations[i]);
            }
            i += 1;
        }
        assert(self.attestations@.subrange(0, self.attestations@.len() as int) =~= self.attestations@);
        out
    }

    /// Whether `attester` is the owner or controls a verification method
    /// of some registered DID.
    fn attester_is_authorized(&self, attester: Account) -> (r: bool)
        requires
            self.owner is Some,
        ensures
            r == (attester == self.owner.unwrap() || controls_a_method(self.records@, attester)),
    {
        let owner = self.owner.unwrap();
        if attester == owner {
            return true;
        }
        let mut i: usize = 0;
        while i < self.records.len()
            invariant
                self.owner == Some(owner),
                i <= self.records@.len(),
                forall|a: int, b: int| 0 <= a < i && 0 <= b < self.records@[a].document.verification_method@.len()
                    ==> (#[trigger] self.records@[a].document.verification_method@[b]).controller != attester,
            decreases self.records@.len() - i,
        {
            let methods = &self.records[i].document.verification_method;
            let mut j: usize = 0;
            while j < methods.len()
                invariant
                    self.owner == Some(owner),
                    i < self.records@.len(),
                    methods@ == self.records@[i as int].document.verification_method@,
                    j <= methods@.len(),
                    forall|b: int| 0 <= b < j ==> (#[trigger] methods@[b]).controller != attester,
                decreases methods@.len() - j,
            {
                if methods[j].controller == attester {
                    assert(self.records@[i as int].document.verification_method@[j as int].controller == attester);
                    return true;
                }
                j += 1;
            }
            i += 1;
        }
        false
    }

    /// Whether `attestation` has a timestamp and a signature and is
    /// recorded.
    pub open spec fn attestation_recorded(&self, attestation: Attestation) -> bool {
        &&& attestation.timestamp != 0
        &&& attestation.signature@.len() != 0
        &&& exists|k: int| 0 <= k < self.attestations@.len()
            && same_attestation(#[trigger] self.attestations@[k], attestation)
    }

    /// Whether `attestation` is a recorded attestation, with a timestamp and
    /// a signature, by the owner or by a controller of some DID's
    /// verification method. The contract reads the owner only for a
    /// recorded attestation, and panics there before `initialize`.
    pub fn verify_attestation(&self, attestation: &Attestation) -> (r: bool)
        requires
            self.attestation_recorded(*attestation) ==> self.owner is Some,
        ensures
            r == (self.attestation_recorded(*attestation) && (attestation.attester == self.owner.unwrap()
                || controls_a_method(self.records@, attestation.attester))),
    {
        if attestation.timestamp == 0 || attestation.signature.len() == 0 {
            return false;
        }
        let mut found = false;
        let mut i: usize = 0;
        while i < self.attestations.len()
            invariant_except_break
                i <= self.attestations@.len(),
                !found,
                forall|k: int| 0 <= k < i ==> !same_attestation(#[trigger] self.attestations@[k], *attestation),
            ensures
                found ==> exists|k: int| 0 <= k < self.attestations@.len()
                    && same_attestation(#[trigger] self.attestations@[k], *attestation),
                !found ==> forall|k: int| 0 <= k < self.attestations@.len()
                    ==> !same_attestation(#[trigger] self.attestations@[k], *attestation),
            decreases self.attestations@.len() - i,
        {
            let a = &self.attestations[i];
            if same_bytes(&a.claim_hash, &attestation.claim_hash) && a.attester == attestation.attester
                && a.timestamp == attestation.timestamp && same_bytes(&a.signature, &attestation.signature) {
                found = true;
                assert(same_attestation(self.attestations@[i as int], *attestation));
                break;
            }
            i += 1;
        }
        if !found {
            return false;
        }
        self.attester_is_authorized(attestation.attester)
    }
}

/// The position of the first verification method with id `id`.
pub open spec fn first_method(methods: Seq<VerificationMethod>, id: Seq<u8>) -> Option<int> {
    if exists|k: int| 0 <= k < methods.len() && (#[trigger] methods[k]).id@ == id {
        Some(choose|k: int| 0 <= k < methods.len() && (#[trigger] methods[k]).id@ == id
            && forall|j: int| 0 <= j < k ==> methods[j].id@ != id)
    } else {
        None
    }
}

/// The position of the first service with id `id`.
pub open spec fn first_service(services: Seq<Service>, id: Seq<u8>) -> Option<int> {
    if exists|k: int| 0 <= k < services.len() && (#[trigger] services[k]).id@ == id {
        Some(choose|k: int| 0 <= k < services.len() && (#[trigger] services[k]).id@ == id
            && forall|j: int| 0 <= j < k ==> services[j].id@ != id)
    } else {
        None
    }
}

fn find_method(methods: &Vec<VerificationMethod>, id: &Vec<u8>) -> (r: Option<usize>)
    ensures
        r is None <==> first_method(methods@, id@) is None,
        r matches Some(k) ==> first_method(methods@, id@) == Some(k as int) && k < methods@.len(),
{
    let mut k: usize = 0;
    while k < methods.len()
        invariant
            k <= methods@.len(),
            forall|j: int| 0 <= j < k ==> methods@[j].id@ != id@,
        decreases methods@.len() - k,
    {
        if same_bytes(&methods[k].id, id) {
            proof {
                let c = choose|c: int| 0 <= c < methods@.len() && (#[trigger] methods@[c]).id@ == id@
                    && forall|j: int| 0 <= j < c ==> methods@[j].id@ != id@;
                assert(methods@[k as int].id@ == id@);
                if c < k {
                    assert(methods@[c].id@ == id@);
                }
                if c > k {
                    assert(methods@[k as int].id@ != id@);
                }
            }
            return Some(k);
        }
        k += 1;
    }
    None
}

fn find_service(services: &Vec<Service>, id: &Vec<u8>) -> (r: Option<usize>)
    ensures
        r is None <==> first_service(services@, id@) is None,
        r matches Some(k) ==> first_service(services@, id@) == Some(k as int) && k < services@.len(),
{
    let mut k: usize = 0;
    while k < services.len()
        invariant
            k <= services@.len(),
            forall|j: int| 0 <= j < k ==> services@[j].id@ != id@,
        decreases services@.len() - k,
    {
        if same_bytes(&services[k].id, id) {
            proof {
                let c = choose|c: int| 0 <= c < services@.len() && (#[trigger] services@[c]).id@ == id@
                    && forall|j: int| 0 <= j < c ==> services@[j].id@ != id@;
                assert(services@[k as int].id@ == id@);
                if c < k {
                    assert(services@[c].id@ == id@);
                }
                if c > k {
                    assert(services@[k as int].id@ != id@);
                }
            }
            return Some(k);
        }
        k += 1;
    }
    None
}

/// A revoked DID is never valid again, whatever the time, until its
/// metadata is changed.
pub proof fn law_revoked_is_invalid(records: Seq<DidRecord>, did: Seq<u8>, now: u64)
    requires
        record_index(records, did) matches Some(i) && records[i].metadata.revocation_bitmap != 0,
    ensures
        !valid_at(records, did, now),
{
}

} // verus!
