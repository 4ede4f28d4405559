use soroban_sdk::{Bytes, Env};
use soroscope::ledger::Account;
use soroscope::private_transfer::{
    next_root_for_transfer, obfuscated_transfer_id, statement_hash, EncryptedBalanceUpdate, Error, PrivateTransfer,
    PrivateTransferContract, StealthAddressProof, TransferEvent, TransferReceipt,
};

/// A verifier contract that accepts exactly one (key hash, public input).
struct MockGroth16Verifier {
    accept: bool,
    vk: [u8; 32],
    input: [u8; 32],
}

impl MockGroth16Verifier {
    fn verify(&self, vk: &[u8; 32], input: &[u8; 32]) -> bool {
        self.accept && &self.vk == vk && &self.input == input
    }
}

fn bytes32(seed: u8) -> [u8; 32] {
    [seed; 32]
}

fn account(n: u128) -> Account {
    Account { contract: false, key_hi: 0, key_lo: n }
}

fn make_transfer(root: [u8; 32]) -> PrivateTransfer {
    PrivateTransfer {
        old_root: root,
        nullifier: bytes32(9),
        sender_update: EncryptedBalanceUpdate { commitment: bytes32(4), ciphertext: vec![1, 2, 3] },
        recipient_update: EncryptedBalanceUpdate { commitment: bytes32(7), ciphertext: vec![7, 8, 9] },
    }
}

fn sdk_sha256(env: &Env, data: &[u8]) -> [u8; 32] {
    env.crypto().sha256(&Bytes::from_slice(env, data)).to_array()
}

/// The proof statement computed with the SDK directly.
fn statement_for(env: &Env, t: &PrivateTransfer, next_root: &[u8; 32]) -> [u8; 32] {
    let mut data = Vec::new();
    data.extend_from_slice(&t.old_root);
    data.extend_from_slice(&t.nullifier);
    data.extend_from_slice(&t.sender_update.commitment);
    data.extend_from_slice(&sdk_sha256(env, &t.sender_update.ciphertext));
    data.extend_from_slice(&t.recipient_update.commitment);
    data.extend_from_slice(&sdk_sha256(env, &t.recipient_update.ciphertext));
    data.extend_from_slice(next_root);
    sdk_sha256(env, &data)
}

struct Ctx {
    env: Env,
    contract: PrivateTransferContract,
    verifier: MockGroth16Verifier,
    vk_hash: [u8; 32],
    events: Vec<TransferEvent>,
}

fn setup() -> Ctx {
    let env = Env::default();
    let admin = account(1);
    let verifier_id = Account { contract: true, key_hi: 0, key_lo: 2 };
    let mut contract = PrivateTransferContract::new();
    let initial_root = bytes32(1);
    let vk_hash = bytes32(2);
    contract.initialize(admin, verifier_id, vk_hash, initial_root).unwrap();
    Ctx { env, contract, verifier: MockGroth16Verifier { accept: false, vk: [0; 32], input: [0; 32] }, vk_hash, events: Vec::new() }
}

impl Ctx {
    fn configure_accepting_verifier(&mut self, transfer: &PrivateTransfer) {
        let expected_next_root = self.contract.preview_next_root(&self.env, transfer).unwrap();
        self.verifier = MockGroth16Verifier {
            accept: true,
            vk: self.vk_hash,
            input: statement_for(&self.env, transfer, &expected_next_root),
        };
    }

    /// Asks the verifier about the transfer's proof, then applies it.
    fn try_apply_private_transfer(&mut self, transfer: &PrivateTransfer) -> Result<TransferReceipt, Error> {
        let valid = match self.contract.proof_request(&self.env, transfer) {
            Ok((_, vk, input)) => self.verifier.verify(&vk, &input),
            Err(e) => return Err(e),
        };
        self.contract.apply_private_transfer(&self.env, transfer.clone(), valid, &mut self.events)
    }

    fn apply_private_transfer(&mut self, transfer: &PrivateTransfer) -> TransferReceipt {
        self.try_apply_private_transfer(transfer).unwrap()
    }
}

#[test]
fn applies_verified_private_transfer_and_updates_root_history() {
    let mut ctx = setup();
    let current_root = ctx.contract.current_root().unwrap();
    let transfer = make_transfer(current_root);
    let expected_next_root = ctx.contract.preview_next_root(&ctx.env, &transfer).unwrap();
    ctx.configure_accepting_verifier(&transfer);

    let receipt = ctx.apply_private_transfer(&transfer);

    assert_eq!(receipt.new_root, expected_next_root);
    assert!(ctx.contract.contains_root(&expected_next_root));
    assert!(ctx.contract.is_nullifier_used(&transfer.nullifier));
    assert_eq!(ctx.contract.encrypted_note(&transfer.sender_update.commitment).unwrap(), transfer.sender_update.ciphertext);
    assert_eq!(ctx.contract.next_leaf_index(), 2);
}

#[test]
fn rejects_transfer_when_verifier_fails() {
    let mut ctx = setup();
    let current_root = ctx.contract.current_root().unwrap();
    let transfer = make_transfer(current_root);
    ctx.verifier = MockGroth16Verifier { accept: false, vk: ctx.vk_hash, input: bytes32(33) };

    let err = ctx.try_apply_private_transfer(&transfer);
    assert_eq!(err.err(), Some(Error::ProofVerificationFailed));
}

#[test]
fn rejects_unknown_roots_and_nullifier_reuse() {
    let mut ctx = setup();

    let unknown_transfer = make_transfer(bytes32(88));
    let err = ctx.try_apply_private_transfer(&unknown_transfer);
    assert_eq!(err.err(), Some(Error::InvalidRoot));

    let current_root = ctx.contract.current_root().unwrap();
    let transfer = make_transfer(current_root);
    ctx.configure_accepting_verifier(&transfer);

    ctx.apply_private_transfer(&transfer);
    let err = ctx.try_apply_private_transfer(&transfer);
    assert_eq!(err.err(), Some(Error::NullifierAlreadyUsed));
}

#[test]
fn verifies_stealth_address_generation_commitment() {
    let ctx = setup();
    let env = &ctx.env;

    let proof = StealthAddressProof { ephemeral_pubkey: bytes32(11), view_tag: bytes32(12), stealth_pubkey: bytes32(13) };
    let commitment = PrivateTransferContract::compute_stealth_commitment(env, &proof);
    assert_eq!(PrivateTransferContract::verify_stealth_commitment(env, &proof, &commitment), Ok(true));

    let mismatched = bytes32(99);
    assert_eq!(PrivateTransferContract::verify_stealth_commitment(env, &proof, &mismatched), Ok(false));

    let zero = bytes32(0);
    let zero_proof = StealthAddressProof { ephemeral_pubkey: zero, view_tag: bytes32(12), stealth_pubkey: bytes32(13) };
    assert_eq!(PrivateTransferContract::verify_stealth_commitment(env, &zero_proof, &commitment), Err(Error::InvalidCommitment));
    assert_eq!(PrivateTransferContract::verify_stealth_commitment(env, &proof, &zero), Err(Error::InvalidCommitment));
}

#[test]
fn registers_stealth_meta_and_one_time_deposit_keys() {
    let mut ctx = setup();
    let receiver = account(3);

    ctx.contract.register_stealth_meta(receiver, bytes32(21), bytes32(22)).unwrap();
    let meta = ctx.contract.stealth_meta(receiver).unwrap();
    assert_eq!(meta.spend_pubkey, bytes32(21));
    assert_eq!(meta.view_pubkey, bytes32(22));

    let deposit_commitment = bytes32(7);
    ctx.contract.register_deposit_key(receiver, deposit_commitment).unwrap();
    assert_eq!(ctx.contract.deposit_key_owner(&deposit_commitment), Some(receiver));
    assert!(!ctx.contract.is_deposit_key_used(&deposit_commitment));

    let duplicate = ctx.contract.register_deposit_key(receiver, deposit_commitment);
    assert_eq!(duplicate, Err(Error::DepositKeyExists));

    let current_root = ctx.contract.current_root().unwrap();
    let transfer = make_transfer(current_root);
    ctx.configure_accepting_verifier(&transfer);
    ctx.apply_private_transfer(&transfer);
    assert!(ctx.contract.is_deposit_key_used(&deposit_commitment));
}

#[test]
fn rejects_reuse_of_disposable_deposit_key() {
    let mut ctx = setup();
    let receiver = account(3);
    let deposit_commitment = bytes32(7);
    ctx.contract.register_deposit_key(receiver, deposit_commitment).unwrap();

    let first = make_transfer(ctx.contract.current_root().unwrap());
    ctx.configure_accepting_verifier(&first);
    ctx.apply_private_transfer(&first);

    let mut second = make_transfer(ctx.contract.current_root().unwrap());
    second.nullifier = bytes32(10);
    second.sender_update.commitment = bytes32(5);
    ctx.configure_accepting_verifier(&second);
    let err = ctx.try_apply_private_transfer(&second);
    assert_eq!(err.err(), Some(Error::DepositKeyAlreadyUsed));
}

#[test]
fn rejects_zero_commitments() {
    let mut ctx = setup();
    let mut transfer = make_transfer(ctx.contract.current_root().unwrap());
    transfer.recipient_update.commitment = bytes32(0);
    let err = ctx.try_apply_private_transfer(&transfer);
    assert_eq!(err.err(), Some(Error::InvalidCommitment));
}

#[test]
fn emits_obfuscated_transfer_event_without_addresses() {
    let mut ctx = setup();

    let transfer = make_transfer(ctx.contract.current_root().unwrap());
    ctx.configure_accepting_verifier(&transfer);
    let receipt = ctx.apply_private_transfer(&transfer);

    let mut expected_id_bytes = Vec::new();
    expected_id_bytes.extend_from_slice(&transfer.nullifier);
    expected_id_bytes.extend_from_slice(&transfer.sender_update.commitment);
    expected_id_bytes.extend_from_slice(&transfer.recipient_update.commitment);
    let expected_id = sdk_sha256(&ctx.env, &expected_id_bytes);

    // The announcement carries the obfuscated id, the new root and the first leaf.
    assert_eq!(obfuscated_transfer_id(&ctx.env, &transfer), expected_id);
    assert_eq!(ctx.events.len(), 1);
    assert_eq!(ctx.events[0].id, expected_id);
    assert_eq!(ctx.events[0].new_root, receipt.new_root);
    assert_eq!(ctx.events[0].leaf_index_start, 0);
    assert_eq!(receipt.leaf_index_start, 0);
    assert_eq!(ctx.contract.current_root().unwrap(), receipt.new_root);
}

// ── Further checks ───────────────────────────────────────────────────────────

#[test]
fn test_hashes_match_the_sdk() {
    let ctx = setup();
    let env = &ctx.env;
    let transfer = make_transfer(bytes32(1));
    // H(H(root || sender) || recipient), computed with the SDK.
    let mut first = Vec::new();
    first.extend_from_slice(&transfer.old_root);
    first.extend_from_slice(&transfer.sender_update.commitment);
    let h1 = sdk_sha256(env, &first);
    let mut second = Vec::new();
    second.extend_from_slice(&h1);
    second.extend_from_slice(&transfer.recipient_update.commitment);
    let expected_root = sdk_sha256(env, &second);
    let root = next_root_for_transfer(env, &transfer.old_root, &transfer);
    assert_eq!(root, expected_root);
    assert_ne!(root, transfer.old_root);
    assert_eq!(statement_hash(env, &transfer, &root), statement_for(env, &transfer, &root));
    // The digest of the empty input is the well-known SHA-256 constant.
    let empty = sdk_sha256(env, &[]);
    assert_eq!(empty[0], 0xe3);
    assert_eq!(empty[31], 0x55);
}

#[test]
fn test_private_transfer_errors() {
    let mut ctx = setup();
    let transfer = make_transfer(bytes32(1));
    // Same sender and recipient commitment.
    let mut same = transfer.clone();
    same.recipient_update.commitment = same.sender_update.commitment;
    assert_eq!(ctx.try_apply_private_transfer(&same).err(), Some(Error::InvalidUpdate));
    // Initializing twice is refused.
    assert_eq!(ctx.contract.initialize(account(1), account(2), bytes32(2), bytes32(1)), Err(Error::AlreadyInitialized));
    // An uninitialized contract has no root.
    let fresh = PrivateTransferContract::new();
    assert_eq!(fresh.current_root(), Err(Error::NotInitialized));
    assert_eq!(Error::DepositKeyExists.code(), 10);
    assert_eq!(Error::AlreadyInitialized.code(), 1);
}

#[test]
fn spent_deposit_key_is_refused_after_the_proof() {
    let mut ctx = setup();
    let deposit_commitment = bytes32(7);
    ctx.contract.register_deposit_key(account(3), deposit_commitment).unwrap();
    let first = make_transfer(ctx.contract.current_root().unwrap());
    ctx.configure_accepting_verifier(&first);
    ctx.apply_private_transfer(&first);

    let mut second = make_transfer(ctx.contract.current_root().unwrap());
    second.nullifier = bytes32(10);
    second.sender_update.commitment = bytes32(5);
    // The verifier is still asked about the proof.
    assert!(ctx.contract.proof_request(&ctx.env, &second).is_ok());
    // With a proof the verifier rejects, that is the reason given.
    ctx.verifier = MockGroth16Verifier { accept: false, vk: ctx.vk_hash, input: [0; 32] };
    assert_eq!(ctx.try_apply_private_transfer(&second).err(), Some(Error::ProofVerificationFailed));
}
