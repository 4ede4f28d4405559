//! Private transfers over a commitment tree: each transfer spends a
//! nullifier once, records two encrypted balance updates, advances the root
//! by hashing the two commitments into it, and is accepted only with a valid
//! zero-knowledge proof (checked by a separate verifier contract). One-time
//! deposit keys can receive exactly one transfer; stealth meta-addresses let
//! senders derive one-time receiver keys.

use vstd::prelude::*;
use crate::ledger::Account;

verus! {

#[derive(Copy, Clone, Debug, PartialEq, Eq, Structural)]
pub enum Error {
    AlreadyInitialized,
    NotInitialized,
    Unauthorized,
    InvalidRoot,
    ProofVerificationFailed,
    NullifierAlreadyUsed,
    InvalidUpdate,
    InvalidCommitment,
    DepositKeyAlreadyUsed,
    DepositKeyExists,
}

impl Error {
    /// The contract error code.
    pub fn code(&self) -> (r: u32)
        ensures
            r == match self {
                Error::AlreadyInitialized => 1u32,
                Error::NotInitialized => 2,
                Error::Unauthorized => 3,
                Error::InvalidRoot => 4,
                Error::ProofVerificationFailed => 5,
                Error::NullifierAlreadyUsed => 6,
                Error::InvalidUpdate => 7,
                Error::InvalidCommitment => 8,
                Error::DepositKeyAlreadyUsed => 9,
                Error::DepositKeyExists => 10,
            },
    {
        match self {
            Error::AlreadyInitialized => 1,
            Error::NotInitialized => 2,
            Error::Unauthorized => 3,
            Error::InvalidRoot => 4,
            Error::ProofVerificationFailed => 5,
            Error::NullifierAlreadyUsed => 6,
            Error::InvalidUpdate => 7,
            Error::InvalidCommitment => 8,
            Error::DepositKeyAlreadyUsed => 9,
            Error::DepositKeyExists => 10,
        }
    }
}

#[verifier::external_type_specification]
#[verifier::external_body]
pub struct ExEnv(soroban_sdk::Env);

/// Stealth meta-address published by a receiver (spend + view public keys).
#[derive(Copy, Clone, Debug)]
pub struct StealthMetaAddress {
    pub spend_pubkey: [u8; 32],
    pub view_pubkey: [u8; 32],
}

/// Inputs used to derive and verify a stealth address commitment.
#[derive(Copy, Clone, Debug)]
pub struct StealthAddressProof {
    pub ephemeral_pubkey: [u8; 32],
    pub view_tag: [u8; 32],
    pub stealth_pubkey: [u8; 32],
}

#[derive(Clone, Debug)]
pub struct EncryptedBalanceUpdate {
    pub commitment: [u8; 32],
    pub ciphertext: Vec<u8>,
}

#[derive(Clone, Debug)]
pub struct PrivateTransfer {
    pub old_root: [u8; 32],
    pub nullifier: [u8; 32],
    pub sender_update: EncryptedBalanceUpdate,
    pub recipient_update: EncryptedBalanceUpdate,
}

#[derive(Copy, Clone, Debug)]
pub struct TransferReceipt {
    pub previous_root: [u8; 32],
    pub new_root: [u8; 32],
    pub nullifier: [u8; 32],
    pub leaf_index_start: u32,
}

/// An encrypted note stored under its commitment.
#[derive(Clone, Debug)]
pub struct Note {
    pub commitment: [u8; 32],
    pub ciphertext: Vec<u8>,
}

/// A registered one-time deposit key and its owner.
#[derive(Copy, Clone, Debug)]
pub struct DepositKey {
    pub commitment: [u8; 32],
    pub owner: Account,
}

/// A published stealth meta-address.
#[derive(Copy, Clone, Debug)]
pub struct StealthEntry {
    pub owner: Account,
    pub meta: StealthMetaAddress,
}

/// The SHA-256 digest of `data`.
pub uninterp spec fn sha256_digest(data: Seq<u8>) -> Seq<u8>;

/// `soroban_sdk::crypto::Crypto::sha256` on `data` copied into host bytes:
/// the SHA-256 digest of the bytes, which depends on them alone. The host
/// aborts the call when its resource budget runs out; that is not stated.
#[verifier::external_body]
pub(crate) fn sha256_32(env: &soroban_sdk::Env, data: &Vec<u8>) -> (r: [u8; 32])
    ensures
        r@ == sha256_digest(data@),
{
    let bytes = soroban_sdk::Bytes::from_slice(env, data.as_slice());
    env.crypto().sha256(&bytes).to_array()
}

/// The 32 zero bytes.
pub open spec fn zero32() -> Seq<u8> {
    Seq::new(32, |i: int| 0u8)
}

pub open spec fn hash_pair(left: Seq<u8>, right: Seq<u8>) -> Seq<u8> {
    sha256_digest(left + right)
}

/// The root after a transfer from `root`: H(H(root || sender commitment) ||
/// recipient commitment).
pub open spec fn next_root_spec(root: Seq<u8>, t: PrivateTransfer) -> Seq<u8> {
    hash_pair(hash_pair(root, t.sender_update.commitment@), t.recipient_update.commitment@)
}

/// The proof's public input: H(old root || nullifier || sender commitment ||
/// H(sender ciphertext) || recipient commitment || H(recipient ciphertext) ||
/// next root).
pub open spec fn statement_spec(t: PrivateTransfer, next_root: Seq<u8>) -> Seq<u8> {
    sha256_digest(t.old_root@ + t.nullifier@ + t.sender_update.commitment@
        + sha256_digest(t.sender_update.ciphertext@) + t.recipient_update.commitment@
        + sha256_digest(t.recipient_update.ciphertext@) + next_root)
}

/// H(ephemeral_pubkey || view_tag || stealth_pubkey).
pub open spec fn stealth_spec(p: StealthAddressProof) -> Seq<u8> {
    sha256_digest(p.ephemeral_pubkey@ + p.view_tag@ + p.stealth_pubkey@)
}

/// H(nullifier || sender commitment || recipient commitment), the id under
/// which a transfer is announced.
pub open spec fn obfuscated_id_spec(t: PrivateTransfer) -> Seq<u8> {
    sha256_digest(t.nullifier@ + t.sender_update.commitment@ + t.recipient_update.commitment@)
}

fn append32(data: &mut Vec<u8>, value: &[u8; 32])
    ensures
        final(data)@ == old(data)@ + value@,
{
    let ghost start = data@;
    let mut i: usize = 0;
    while i < 32
        invariant
            i <= 32,
            data@ == start + value@.subrange(0, i as int),
        decreases 32 - i,
    {
        data.push(value[i]);
        i += 1;
        assert(start + value@.subrange(0, i as int) =~= (start + value@.subrange(0, i - 1 as int)).push(value@[i - 1]));
    }
    assert(value@.subrange(0, 32) =~= value@);
}

/// Whether two 32-byte values are equal.
pub fn same32(a: &[u8; 32], b: &[u8; 32]) -> (r: bool)
    ensures
        r == (a@ == b@),
{
    let mut i: usize = 0;
    while i < 32
        invariant
            i <= 32,
            forall|j: int| 0 <= j < i ==> a@[j] == b@[j],
        decreases 32 - i,
    {
        if a[i] != b[i] {
            return false;
        }
        i += 1;
    }
    assert(a@ =~= b@);
    true
}

/// Whether a 32-byte value is all zeros.
pub fn is_zero32(a: &[u8; 32]) -> (r: bool)
    ensures
        r == (a@ == zero32()),
{
    let mut i: usize = 0;
    while i < 32
        invariant
            i <= 32,
            forall|j: int| 0 <= j < i ==> a@[j] == 0,
        decreases 32 - i,
    {
        if a[i] != 0 {
            assert(a@[i as int] != zero32()[i as int]);
            return false;
        }
        i += 1;
    }
    assert(a@ =~= zero32());
    true
}

/// H(left || right).
pub fn hash_concat(env: &soroban_sdk::Env, left: &[u8; 32], right: &[u8; 32]) -> (r: [u8; 32])
    ensures
        r@ == hash_pair(left@, right@),
{
    let mut data: Vec<u8> = Vec::new();
    append32(&mut data, left);
    append32(&mut data, right);
    sha256_32(env, &data)
}

/// The root a transfer moves the tree to from `current_root`.
pub fn next_root_for_transfer(env: &soroban_sdk::Env, current_root: &[u8; 32], transfer: &PrivateTransfer) -> (r: [u8; 32])
    ensures
        r@ == next_root_spec(current_root@, *transfer),
{
    let first = hash_concat(env, current_root, &transfer.sender_update.commitment);
    hash_concat(env, &first, &transfer.recipient_update.commitment)
}

/// The public input the transfer's proof is checked against.
pub fn statement_hash(env: &soroban_sdk::Env, transfer: &PrivateTransfer, next_root: &[u8; 32]) -> (r: [u8; 32])
    ensures
        r@ == statement_spec(*transfer, next_root@),
{
    let sender_cipher_hash = sha256_32(env, &transfer.sender_update.ciphertext);
    let recipient_cipher_hash = sha256_32(env, &transfer.recipient_update.ciphertext);
    let mut data: Vec<u8> = Vec::new();
    append32(&mut data, &transfer.old_root);
    append32(&mut data, &transfer.nullifier);
    append32(&mut data, &transfer.sender_update.commitment);
    append32(&mut data, &sender_cipher_hash);
    append32(&mut data, &transfer.recipient_update.commitment);
    append32(&mut data, &recipient_cipher_hash);
    append32(&mut data, next_root);
    sha256_32(env, &data)
}

/// Stealth address commitment: H(ephemeral_pubkey || view_tag || stealth_pubkey).
pub fn stealth_commitment_hash(env: &soroban_sdk::Env, proof: &StealthAddressProof) -> (r: [u8; 32])
    ensures
        r@ == stealth_spec(*proof),
{
    let mut data: Vec<u8> = Vec::new();
    append32(&mut data, &proof.ephemeral_pubkey);
    append32(&mut data, &proof.view_tag);
    append32(&mut data, &proof.stealth_pubkey);
    sha256_32(env, &data)
}

/// The id under which a transfer is announced.
pub fn obfuscated_transfer_id(env: &soroban_sdk::Env, transfer: &PrivateTransfer) -> (r: [u8; 32])
    ensures
        r@ == obfuscated_id_spec(*transfer),
{
    let mut data: Vec<u8> = Vec::new();
    append32(&mut data, &transfer.nullifier);
    append32(&mut data, &transfer.sender_update.commitment);
    append32(&mut data, &transfer.recipient_update.commitment);
    sha256_32(env, &data)
}

/// `Err(InvalidCommitment)` for the all-zero value.
pub fn require_nonzero_commitment(commitment: &[u8; 32]) -> (r: Result<(), Error>)
    ensures
        r == (if commitment@ == zero32() { Err(Error::InvalidCommitment) } else { Ok(()) }),
{
    if is_zero32(commitment) {
        return Err(Error::InvalidCommitment);
    }
    Ok(())
}

/// Whether `x` is among `s`.
pub open spec fn in32(s: Seq<[u8; 32]>, x: Seq<u8>) -> bool {
    exists|i: int| 0 <= i < s.len() && (#[trigger] s[i])@ == x
}

/// The ciphertext stored last under `c`.
pub open spec fn note_for(notes: Seq<Note>, c: Seq<u8>) -> Option<Seq<u8>>
    decreases notes.len(),
{
    if notes.len() == 0 {
        None
    } else if notes.last().commitment@ == c {
        Some(notes.last().ciphertext@)
    } else {
        note_for(notes.drop_last(), c)
    }
}

/// The owner of the deposit key `c`, if it is registered.
pub open spec fn key_owner(keys: Seq<DepositKey>, c: Seq<u8>) -> Option<Account>
    decreases keys.len(),
{
    if keys.len() == 0 {
        None
    } else if keys.last().commitment@ == c {
        Some(keys.last().owner)
    } else {
        key_owner(keys.drop_last(), c)
    }
}

/// The stealth meta-address published last by `owner`.
pub open spec fn meta_for(entries: Seq<StealthEntry>, owner: Account) -> Option<StealthMetaAddress>
    decreases entries.len(),
{
    if entries.len() == 0 {
        None
    } else if entries.last().owner == owner {
        Some(entries.last().meta)
    } else {
        meta_for(entries.drop_last(), owner)
    }
}

/// The contract's stored state.
pub struct PrivateTransferContract {
    pub admin: Option<Account>,
    pub verifier: Account,
    pub verification_key_hash: [u8; 32],
    pub current_root: [u8; 32],
    pub next_leaf_index: u32,
    /// Every root the tree has had.
    pub root_history: Vec<[u8; 32]>,
    /// Each root with the leaf index it was written at, in order.
    pub root_log: Vec<(u32, [u8; 32])>,
    /// Spent nullifiers.
    pub nullifiers: Vec<[u8; 32]>,
    /// Encrypted notes, the last under a commitment being the current one.
    pub notes: Vec<Note>,
    pub deposit_keys: Vec<DepositKey>,
    /// Deposit keys that have received their transfer.
    pub spent_keys: Vec<[u8; 32]>,
    pub stealth: Vec<StealthEntry>,
}

impl PrivateTransferContract {
    /// No deposit key is registered twice, only registered keys are spent,
    /// and nothing but keys and stealth addresses exists before
    /// initialization.
    pub open spec fn wf(&self) -> bool {
        &&& forall|i: int, j: int| 0 <= i < j < self.deposit_keys@.len() ==>
            self.deposit_keys@[i].commitment@ != self.deposit_keys@[j].commitment@
        &&& forall|i: int| 0 <= i < self.spent_keys@.len() ==>
            key_owner(self.deposit_keys@, (#[trigger] self.spent_keys@[i])@) is Some
        &&& self.admin is None ==> self.root_history@.len() == 0 && self.nullifiers@.len() == 0
            && self.notes@.len() == 0 && self.spent_keys@.len() == 0 && self.next_leaf_index == 0
            && self.root_log@.len() == 0
    }

    pub open spec fn root_known(&self, root: Seq<u8>) -> bool {
        in32(self.root_history@, root)
    }

    pub open spec fn nullifier_used(&self, n: Seq<u8>) -> bool {
        in32(self.nullifiers@, n)
    }

    pub open spec fn key_spent(&self, c: Seq<u8>) -> bool {
        in32(self.spent_keys@, c)
    }

    /// Why a transfer is refused (`valid` is the verifier's answer on its
    /// proof), in the order the contract checks.
    /// The refusals made before the proof is verified.
    pub open spec fn pre_proof_check(&self, t: PrivateTransfer) -> Result<(), Error> {
        if t.sender_update.commitment@ == zero32() || t.recipient_update.commitment@ == zero32() {
            Err(Error::InvalidCommitment)
        } else if t.sender_update.commitment@ == t.recipient_update.commitment@ {
            Err(Error::InvalidUpdate)
        } else if self.nullifier_used(t.nullifier@) {
            Err(Error::NullifierAlreadyUsed)
        } else if !self.root_known(t.old_root@) {
            Err(Error::InvalidRoot)
        } else if self.admin is None {
            Err(Error::NotInitialized)
        } else {
            Ok(())
        }
    }

    pub open spec fn apply_check(&self, t: PrivateTransfer, valid: bool) -> Result<(), Error> {
        if t.sender_update.commitment@ == zero32() || t.recipient_update.commitment@ == zero32() {
            Err(Error::InvalidCommitment)
        } else if t.sender_update.commitment@ == t.recipient_update.commitment@ {
            Err(Error::InvalidUpdate)
        } else if self.nullifier_used(t.nullifier@) {
            Err(Error::NullifierAlreadyUsed)
        } else if !self.root_known(t.old_root@) {
            Err(Error::InvalidRoot)
        } else if self.admin is None {
            Err(Error::NotInitialized)
        } else if !valid {
            Err(Error::ProofVerificationFailed)
        } else if key_owner(self.deposit_keys@, t.recipient_update.commitment@) is Some
            && self.key_spent(t.recipient_update.commitment@) {
            Err(Error::DepositKeyAlreadyUsed)
        } else {
            Ok(())
        }
    }

    /// A contract that has not been initialized.
    pub fn new() -> (r: PrivateTransferContract)
        ensures
            r.wf(),
            r.admin is None,
            r.verifier == (Account { contract: true, key_hi: 0, key_lo: 0 }),
            r.verification_key_hash@ == seq![0u8; 32],
            r.current_root@ == seq![0u8; 32],
            r.next_leaf_index == 0,
            r.root_history@.len() == 0,
            r.root_log@.len() == 0,
            r.nullifiers@.len() == 0,
            r.notes@.len() == 0,
            r.deposit_keys@.len() == 0,
            r.spent_keys@.len() == 0,
            r.stealth@.len() == 0,
    {
        PrivateTransferContract {
            admin: None,
            verifier: Account { contract: true, key_hi: 0, key_lo: 0 },
            verification_key_hash: [0u8; 32],
            current_root: [0u8; 32],
            next_leaf_index: 0,
            root_history: Vec::new(),
            root_log: Vec::new(),
            nullifiers: Vec::new(),
            notes: Vec::new(),
            deposit_keys: Vec::new(),
            spent_keys: Vec::new(),
            stealth: Vec::new(),
        }
    }

    fn write_root(&mut self, root: [u8; 32], index: u32)
        ensures
            final(self).current_root == root,
            final(self).root_history@ == old(self).root_history@.push(root),
            final(self).root_log@ == old(self).root_log@.push((index, root)),
            final(self).admin == old(self).admin,
            final(self).verifier == old(self).verifier,
            final(self).verification_key_hash == old(self).verification_key_hash,
            final(self).next_leaf_index == old(self).next_leaf_index,
            final(self).nullifiers@ == old(self).nullifiers@,
            final(self).notes@ == old(self).notes@,
            final(self).deposit_keys@ == old(self).deposit_keys@,
            final(self).spent_keys@ == old(self).spent_keys@,
            final(self).stealth@ == old(self).stealth@,
    {
        self.current_root = root;
        self.root_history.push(root);
        self.root_log.push((index, root));
    }

    /// Sets the admin, the proof verifier and its key hash, and the initial
    /// root (at leaf index 0).
    pub fn initialize(
        &mut self,
        admin: Account,
        verifier: Account,
        verification_key_hash: [u8; 32],
        initial_root: [u8; 32],
    ) -> (r: Result<(), Error>)
        requires
            old(self).wf(),
        ensures
            final(self).wf(),
            r == (if old(self).admin is Some { Err(Error::AlreadyInitialized) } else { Ok(()) }),
            r is Ok ==> {
                &&& final(self).admin == Some(admin)
                &&& final(self).verifier == verifier
                &&& final(self).verification_key_hash == verification_key_hash
                &&& final(self).next_leaf_index == 0
                &&& final(self).current_root == initial_root
                &&& final(self).root_history@ == seq![initial_root]
                &&& final(self).root_log@ == seq![(0u32, initial_root)]
                &&& final(self).nullifiers@ == old(self).nullifiers@
                &&& final(self).notes@ == old(self).notes@
                &&& final(self).deposit_keys@ == old(self).deposit_keys@
                &&& final(self).spent_keys@ == old(self).spent_keys@
                &&& final(self).stealth@ == old(self).stealth@
            },
            r is Err ==> *final(self) == *old(self),
    {
        if self.admin.is_some() {
            return Err(Error::AlreadyInitialized);
        }
        self.admin = Some(admin);
        self.verifier = verifier;
        self.verification_key_hash = verification_key_hash;
        self.next_leaf_index = 0;
        self.write_root(initial_root, 0);
        Ok(())
    }

    pub fn set_verifier(&mut self, verifier: Account, verification_key_hash: [u8; 32]) -> (r: Result<(), Error>)
        requires
            old(self).wf(),
        ensures
            final(self).wf(),
            r == (if old(self).admin is None { Err(Error::NotInitialized) } else { Ok(()) }),
            r is Ok ==> *final(self) == (PrivateTransferContract {
                verifier, verification_key_hash, ..*old(self)
            }),
            r is Err ==> *final(self) == *old(self),
    {
        if self.admin.is_none() {
            return Err(Error::NotInitialized);
        }
        self.verifier = verifier;
        self.verification_key_hash = verification_key_hash;
        Ok(())
    }

    pub fn current_root(&self) -> (r: Result<[u8; 32], Error>)
        ensures
            r == (if self.admin is None { Err(Error::NotInitialized) } else { Ok(self.current_root) }),
    {
        if self.admin.is_none() {
            return Err(Error::NotInitialized);
        }
        Ok(self.current_root)
    }

    /// Whether `root` has ever been the tree's root.
    pub fn contains_root(&self, root: &[u8; 32]) -> (r: bool)
        ensures
            r == self.root_known(root@),
    {
        contains32(&self.root_history, root)
    }

    pub fn next_leaf_index(&self) -> (r: u32)
        ensures
            r == self.next_leaf_index,
    {
        self.next_leaf_index
    }

    pub fn is_nullifier_used(&self, nullifier: &[u8; 32]) -> (r: bool)
        ensures
            r == self.nullifier_used(nullifier@),
    {
        contains32(&self.nullifiers, nullifier)
    }

    /// The encrypted note stored under `commitment`, if any.
    pub fn encrypted_note(&self, commitment: &[u8; 32]) -> (r: Option<Vec<u8>>)
        ensures
            r is None <==> note_for(self.notes@, commitment@) is None,
            r matches Some(v) ==> note_for(self.notes@, commitment@) == Some(v@),
    {
        let mut i: usize = self.notes.len();
        assert(self.notes@.subrange(0, i as int) =~= self.notes@);
        while i > 0
            invariant
                i <= self.notes@.len(),
                note_for(self.notes@, commitment@) == note_for(self.notes@.subrange(0, i as int), commitment@),
            decreases i,
        {
            proof {
                assert(self.notes@.subrange(0, i as int).drop_last() =~= self.notes@.subrange(0, i - 1 as int));
            }
            if same32(&self.notes[i - 1].commitment, commitment) {
                let c = self.notes[i - 1].ciphertext.clone();
                assert(c@ =~= self.notes@[i - 1].ciphertext@);
                return Some(c);
            }
            i -= 1;
        }
        None
    }

    /// The root a transfer would move the tree to; its old root must be the
    /// current root or an earlier one.
    pub fn preview_next_root(&self, env: &soroban_sdk::Env, transfer: &PrivateTransfer) -> (r: Result<[u8; 32], Error>)
        ensures
            match r {
                Err(e) => e == (if self.admin is None { Error::NotInitialized } else { Error::InvalidRoot }),
                Ok(root) => root@ == next_root_spec(transfer.old_root@, *transfer),
            },
            r is Err <==> self.admin is None
                || (transfer.old_root@ != self.current_root@ && !self.root_known(transfer.old_root@)),
    {
        if self.admin.is_none() {
            return Err(Error::NotInitialized);
        }
        if !same32(&transfer.old_root, &self.current_root) && !contains32(&self.root_history, &transfer.old_root) {
            return Err(Error::InvalidRoot);
        }
        Ok(next_root_for_transfer(env, &transfer.old_root, transfer))
    }

    /// H(ephemeral_pubkey || view_tag || stealth_pubkey).
    pub fn compute_stealth_commitment(env: &soroban_sdk::Env, proof: &StealthAddressProof) -> (r: [u8; 32])
        ensures
            r@ == stealth_spec(*proof),
    {
        stealth_commitment_hash(env, proof)
    }

    /// Whether `expected` is H(ephemeral || view_tag || stealth); the
    /// ephemeral key, the stealth key and `expected` must not be zero.
    pub fn verify_stealth_commitment(
        env: &soroban_sdk::Env,
        proof: &StealthAddressProof,
        expected: &[u8; 32],
    ) -> (r: Result<bool, Error>)
        ensures
            r == (if proof.ephemeral_pubkey@ == zero32() || proof.stealth_pubkey@ == zero32() || expected@ == zero32() {
                Err(Error::InvalidCommitment)
            } else {
                Ok(stealth_spec(*proof) == expected@)
            }),
    {
        if is_zero32(&proof.ephemeral_pubkey) || is_zero32(&proof.stealth_pubkey) || is_zero32(expected) {
            return Err(Error::InvalidCommitment);
        }
        let h = stealth_commitment_hash(env, proof);
        Ok(same32(&h, expected))
    }

    /// Publishes `owner`'s spend and view keys (neither may be zero).
    pub fn register_stealth_meta(&mut self, owner: Account, spend_pubkey: [u8; 32], view_pubkey: [u8; 32]) -> (r: Result<(), Error>)
        requires
            old(self).wf(),
        ensures
            final(self).wf(),
            r == (if spend_pubkey@ == zero32() || view_pubkey@ == zero32() { Err(Error::InvalidCommitment) } else { Ok(()) }),
            r is Ok ==> final(self).stealth@ == old(self).stealth@.push(
                StealthEntry { owner, meta: StealthMetaAddress { spend_pubkey, view_pubkey } })
                && *final(self) == (PrivateTransferContract { stealth: final(self).stealth, ..*old(self) }),
            r is Err ==> *final(self) == *old(self),
    {
        if is_zero32(&spend_pubkey) || is_zero32(&view_pubkey) {
            return Err(Error::InvalidCommitment);
        }
        self.stealth.push(StealthEntry { owner, meta: StealthMetaAddress { spend_pubkey, view_pubkey } });
        Ok(())
    }

    pub fn stealth_meta(&self, owner: Account) -> (r: Option<StealthMetaAddress>)
        ensures
            r == meta_for(self.stealth@, owner),
    {
        let mut i: usize = self.stealth.len();
        assert(self.stealth@.subrange(0, i as int) =~= self.stealth@);
        while i > 0
            invariant
                i <= self.stealth@.len(),
                meta_for(self.stealth@, owner) == meta_for(self.stealth@.subrange(0, i as int), owner),
            decreases i,
        {
            proof {
                assert(self.stealth@.subrange(0, i as int).drop_last() =~= self.stealth@.subrange(0, i - 1 as int));
            }
            if self.stealth[i - 1].owner == owner {
                return Some(self.stealth[i - 1].meta);
            }
            i -= 1;
        }
        None
    }

    /// Registers a one-time deposit key for `owner`; it can receive exactly
    /// one private transfer.
    pub fn register_deposit_key(&mut self, owner: Account, commitment: [u8; 32]) -> (r: Result<(), Error>)
        requires
            old(self).wf(),
        ensures
            final(self).wf(),
            r == (if commitment@ == zero32() {
                Err(Error::InvalidCommitment)
            } else if key_owner(old(self).deposit_keys@, commitment@) is Some {
                Err(Error::DepositKeyExists)
            } else {
                Ok(())
            }),
            r is Ok ==> final(self).deposit_keys@ == old(self).deposit_keys@.push(DepositKey { commitment, owner })
                && *final(self) == (PrivateTransferContract { deposit_keys: final(self).deposit_keys, ..*old(self) }),
            r is Err ==> *final(self) == *old(self),
    {
        if is_zero32(&commitment) {
            return Err(Error::InvalidCommitment);
        }
        if find_key(&self.deposit_keys, &commitment).is_some() {
            return Err(Error::DepositKeyExists);
        }
        let ghost old_keys = self.deposit_keys@;
        self.deposit_keys.push(DepositKey { commitment, owner });
        proof {
            lemma_key_owner_absent(old_keys, commitment@);
            assert forall|i: int| 0 <= i < self.spent_keys@.len() implies
                key_owner(self.deposit_keys@, (#[trigger] self.spent_keys@[i])@) is Some by {
                lemma_key_owner_push(old_keys, DepositKey { commitment, owner }, self.spent_keys@[i]@);
            }
        }
        Ok(())
    }

    pub fn is_deposit_key_used(&self, commitment: &[u8; 32]) -> (r: bool)
        ensures
            r == self.key_spent(commitment@),
    {
        contains32(&self.spent_keys, commitment)
    }

    pub fn deposit_key_owner(&self, commitment: &[u8; 32]) -> (r: Option<Account>)
        ensures
            r == key_owner(self.deposit_keys@, commitment@),
    {
        match find_key(&self.deposit_keys, commitment) {
            Some(i) => Some(self.deposit_keys[i].owner),
            None => None,
        }
    }

    /// What to ask the verifier contract for a transfer: the verifier, its
    /// key hash and the proof's public input. `Err` where the transfer is
    /// refused before its proof is looked at (`pre_proof_check`); a spent
    /// deposit key is refused only after the proof, by
    /// `apply_private_transfer`.
    pub fn proof_request(&self, env: &soroban_sdk::Env, transfer: &PrivateTransfer) -> (r: Result<(Account, [u8; 32], [u8; 32]), Error>)
        ensures
            match self.pre_proof_check(*transfer) {
                Err(e) => r == Err::<(Account, [u8; 32], [u8; 32]), Error>(e),
                Ok(()) => r matches Ok((v, k, h)) && v == self.verifier && k == self.verification_key_hash
                    && h@ == statement_spec(*transfer, next_root_spec(transfer.old_root@, *transfer)),
            },
    {
        match self.pre_proof_checks(transfer) {
            Ok(()) => {},
            Err(e) => return Err(e),
        }
        let next_root = next_root_for_transfer(env, &transfer.old_root, transfer);
        let h = statement_hash(env, transfer, &next_root);
        Ok((self.verifier, self.verification_key_hash, h))
    }

    /// The checks made before the proof is verified.
    fn pre_proof_checks(&self, transfer: &PrivateTransfer) -> (r: Result<(), Error>)
        ensures
            r == self.pre_proof_check(*transfer),
            r is Err ==> r == self.apply_check(*transfer, true) && r == self.apply_check(*transfer, false),
            r is Ok ==> self.apply_check(*transfer, false) == Err::<(), Error>(Error::ProofVerificationFailed)
                && self.apply_check(*transfer, true) == (if key_owner(self.deposit_keys@, transfer.recipient_update.commitment@) is Some
                    && self.key_spent(transfer.recipient_update.commitment@) {
                    Err(Error::DepositKeyAlreadyUsed)
                } else {
                    Ok(())
                }),
    {
        if is_zero32(&transfer.sender_update.commitment) || is_zero32(&transfer.recipient_update.commitment) {
            return Err(Error::InvalidCommitment);
        }
        if same32(&transfer.sender_update.commitment, &transfer.recipient_update.commitment) {
            return Err(Error::InvalidUpdate);
        }
        if contains32(&self.nullifiers, &transfer.nullifier) {
            return Err(Error::NullifierAlreadyUsed);
        }
        if !contains32(&self.root_history, &transfer.old_root) {
            return Err(Error::InvalidRoot);
        }
        if self.admin.is_none() {
            return Err(Error::NotInitialized);
        }
        Ok(())
    }

    /// Applies a private transfer relayed with a proof, where `valid` is the
    /// verifier contract's answer on that proof (see `proof_request`): the
    /// nullifier is spent, both encrypted notes are stored, a registered
    /// deposit key receiving the transfer is used up, two leaves are added
    /// and the root advances to `next_root_for_transfer`.
    pub fn apply_private_transfer(
        &mut self,
        env: &soroban_sdk::Env,
        transfer: PrivateTransfer,
        valid: bool,
        events: &mut Vec<TransferEvent>,
    ) -> (r: Result<TransferReceipt, Error>)
        requires
            old(self).wf(),
        ensures
            final(self).wf(),
            match old(self).apply_check(transfer, valid) {
                Err(e) => r == Err::<TransferReceipt, Error>(e),
                Ok(()) => r is Ok,
            },
            r matches Ok(receipt) ==> {
                let s = *old(self);
                let c = transfer.recipient_update.commitment;
                let leaf = s.next_leaf_index;
                let next = (if leaf as int + 2 > u32::MAX { u32::MAX } else { (leaf + 2) as u32 });
                &&& receipt.previous_root == s.current_root
                &&& receipt.new_root@ == next_root_spec(transfer.old_root@, transfer)
                &&& receipt.nullifier == transfer.nullifier
                &&& receipt.leaf_index_start == leaf
                &&& final(self).nullifiers@ == s.nullifiers@.push(transfer.nullifier)
                &&& final(self).notes@ == s.notes@
                    .push(Note { commitment: transfer.sender_update.commitment, ciphertext: transfer.sender_update.ciphertext })
                    .push(Note { commitment: c, ciphertext: transfer.recipient_update.ciphertext })
                &&& final(self).spent_keys@ == if key_owner(s.deposit_keys@, c@) is Some {
                    s.spent_keys@.push(c)
                } else {
                    s.spent_keys@
                }
                &&& final(self).next_leaf_index == next
                &&& final(self).current_root == receipt.new_root
                &&& final(self).root_history@ == s.root_history@.push(receipt.new_root)
                &&& final(self).root_log@ == s.root_log@.push((next, receipt.new_root))
                &&& final(self).admin == s.admin
                &&& final(self).verifier == s.verifier
                &&& final(self).verification_key_hash == s.verification_key_hash
                &&& final(self).deposit_keys@ == s.deposit_keys@
                &&& final(self).stealth@ == s.stealth@
                &&& final(events)@.len() == old(events)@.len() + 1
                &&& final(events)@.drop_last() == old(events)@
                &&& final(events)@.last().id@ == obfuscated_id_spec(transfer)
                &&& final(events)@.last().new_root == receipt.new_root
                &&& final(events)@.last().leaf_index_start == receipt.leaf_index_start
            },
            r is Err ==> *final(self) == *old(self) && final(events)@ == old(events)@,
    {
        match self.pre_proof_checks(&transfer) {
            Ok(()) => {},
            Err(e) => return Err(e),
        }
        let current_root = self.current_root;
        let next_root = next_root_for_transfer(env, &transfer.old_root, &transfer);
        if !valid {
            return Err(Error::ProofVerificationFailed);
        }
        let c = transfer.recipient_update.commitment;
        let registered = find_key(&self.deposit_keys, &c).is_some();
        if registered && contains32(&self.spent_keys, &c) {
            return Err(Error::DepositKeyAlreadyUsed);
        }
        let ghost s = *self;
        if registered {
            self.spent_keys.push(c);
            proof {
                assert forall|i: int| 0 <= i < self.spent_keys@.len() implies
                    key_owner(self.deposit_keys@, (#[trigger] self.spent_keys@[i])@) is Some by {
                    if i < s.spent_keys@.len() {
                        assert(self.spent_keys@[i] == s.spent_keys@[i]);
                    }
                }
            }
        }
        let leaf = self.next_leaf_index;
        let next = leaf.saturating_add(2);
        let id = obfuscated_transfer_id(env, &transfer);
        let nullifier = transfer.nullifier;
        let sender_commitment = transfer.sender_update.commitment;
        self.nullifiers.push(nullifier);
        self.notes.push(Note { commitment: sender_commitment, ciphertext: transfer.sender_update.ciphertext });
        self.notes.push(Note { commitment: c, ciphertext: transfer.recipient_update.ciphertext });
        self.next_leaf_index = next;
        self.write_root(next_root, next);
        let ghost before = events@;
        events.push(TransferEvent { id, new_root: next_root, leaf_index_start: leaf });
        assert(events@.drop_last() =~= before);
        Ok(TransferReceipt { previous_root: current_root, new_root: next_root, nullifier, leaf_index_start: leaf })
    }
}

/// The `xfer` event of an applied transfer: its obfuscated id (the topic),
/// the new root and the first new leaf.
#[derive(Copy, Clone, Debug)]
pub struct TransferEvent {
    pub id: [u8; 32],
    pub new_root: [u8; 32],
    pub leaf_index_start: u32,
}

/// Whether `x` is among `s`.
pub fn contains32(s: &Vec<[u8; 32]>, x: &[u8; 32]) -> (r: bool)
    ensures
        r == in32(s@, x@),
{
    let mut i: usize = 0;
    while i < s.len()
        invariant
            i <= s@.len(),
            forall|j: int| 0 <= j < i ==> s@[j]@ != x@,
        decreases s@.len() - i,
    {
        if same32(&s[i], x) {
            return true;
        }
        i += 1;
    }
    false
}

/// The position of the deposit key `c`, if it is registered.
fn find_key(keys: &Vec<DepositKey>, c: &[u8; 32]) -> (r: Option<usize>)
    ensures
        r is None <==> key_owner(keys@, c@) is None,
        r matches Some(i) ==> i < keys@.len() && key_owner(keys@, c@) == Some(keys@[i as int].owner),
{
    let mut i: usize = keys.len();
    assert(keys@.subrange(0, i as int) =~= keys@);
    while i > 0
        invariant
            i <= keys@.len(),
            key_owner(keys@, c@) == key_owner(keys@.subrange(0, i as int), c@),
        decreases i,
    {
        proof {
            assert(keys@.subrange(0, i as int).drop_last() =~= keys@.subrange(0, i - 1 as int));
        }
        if same32(&keys[i - 1].commitment, c) {
            return Some(i - 1);
        }
        i -= 1;
    }
    None
}

proof fn lemma_key_owner_absent(keys: Seq<DepositKey>, c: Seq<u8>)
    requires
        key_owner(keys, c) is None,
    ensures
        forall|i: int| 0 <= i < keys.len() ==> keys[i].commitment@ != c,
    decreases keys.len(),
{
    if keys.len() > 0 {
        lemma_key_owner_absent(keys.drop_last(), c);
        assert forall|i: int| 0 <= i < keys.len() implies keys[i].commitment@ != c by {
            if i < keys.len() - 1 {
                assert(keys[i] == keys.drop_last()[i]);
            }
        }
    }
}

proof fn lemma_key_owner_push(keys: Seq<DepositKey>, k: DepositKey, c: Seq<u8>)
    requires
        key_owner(keys, c) is Some,
    ensures
        key_owner(keys.push(k), c) is Some,
{
    assert(keys.push(k).drop_last() =~= keys);
}


/// A nullifier is spent once: after a transfer has been applied, every
/// transfer that presents the same nullifier is refused.
pub proof fn law_nullifier_single_use(
    before: PrivateTransferContract,
    t: PrivateTransfer,
    after: PrivateTransferContract,
    t2: PrivateTransfer,
    valid: bool,
)
    requires
        after.nullifiers@ == before.nullifiers@.push(t.nullifier),
        t2.nullifier@ == t.nullifier@,
    ensures
        after.apply_check(t2, valid) is Err,
{
    assert(after.nullifiers@[before.nullifiers@.len() as int] == t.nullifier);
    assert(after.nullifier_used(t2.nullifier@));
}

/// A registered deposit key receives one transfer: once a transfer to it
/// has been applied, every later transfer to it is refused.
pub proof fn law_deposit_key_single_use(
    before: PrivateTransferContract,
    t: PrivateTransfer,
    after: PrivateTransferContract,
    t2: PrivateTransfer,
    valid: bool,
)
    requires
        key_owner(before.deposit_keys@, t.recipient_update.commitment@) is Some,
        after.deposit_keys@ == before.deposit_keys@,
        after.spent_keys@ == before.spent_keys@.push(t.recipient_update.commitment),
        t2.recipient_update.commitment@ == t.recipient_update.commitment@,
    ensures
        after.apply_check(t2, valid) is Err,
{
    assert(after.spent_keys@[before.spent_keys@.len() as int] == t.recipient_update.commitment);
    assert(after.key_spent(t2.recipient_update.commitment@));
}

/// Applying a transfer keeps every earlier root known, so proofs against a
/// recent root stay acceptable after other transfers land.
pub proof fn law_roots_stay_known(before: PrivateTransferContract, after: PrivateTransferContract, new_root: [u8; 32], root: Seq<u8>)
    requires
        after.root_history@ == before.root_history@.push(new_root),
        before.root_known(root),
    ensures
        after.root_known(root),
        after.root_known(new_root@),
{
    let i = choose|i: int| 0 <= i < before.root_history@.len() && (#[trigger] before.root_history@[i])@ == root;
    assert(after.root_history@[i] == before.root_history@[i]);
    assert(after.root_history@[before.root_history@.len() as int] == new_root);
}

} // verus!
