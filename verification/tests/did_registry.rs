use soroscope::did_registry::{
    validate_did_uri, Attestation, Claim, DIDDocument, DIDRegistry, DidAction, DidError, DidUpdated, Service,
    VerificationMethod,
};
use soroscope::ledger::Account;

fn addr(n: u128) -> Account {
    Account { contract: false, key_hi: 9, key_lo: n }
}

fn b(s: &str) -> Vec<u8> {
    s.as_bytes().to_vec()
}

fn method(id: &str, controller: Account, key: &str) -> VerificationMethod {
    VerificationMethod { id: b(id), controller, public_key_multibase: b(key) }
}

fn doc_with_key(controller: Account) -> DIDDocument {
    DIDDocument { verification_method: vec![method("#key-1", controller, "z6Mk1")], service: Vec::new() }
}

fn fail(e: DidError) -> ! {
    panic!("{}", e.message())
}

fn registry() -> (DIDRegistry, Account) {
    let owner = addr(1);
    let mut r = DIDRegistry::new();
    r.check_initialize().unwrap_or_else(|e| fail(e));
    r.initialize(owner);
    (r, owner)
}

fn register(r: &mut DIDRegistry, did: &[u8], doc: DIDDocument, exp: Option<u64>, now: u64, ev: &mut Vec<DidUpdated>) {
    let did = did.to_vec();
    r.check_register(&did).unwrap_or_else(|e| fail(e));
    r.register_did(did, doc, exp, now, ev);
}

fn document(r: &DIDRegistry, now: u64, did: &Vec<u8>) -> DIDDocument {
    if !r.is_did_valid(now, did) {
        fail(DidError::DidInvalid);
    }
    r.get_did_document(now, did).clone()
}

#[test]
fn initialize_once() {
    let (r, owner) = registry();
    assert_eq!(r.owner(), owner);
    assert_eq!(r.check_initialize(), Err(DidError::AlreadyInitialized));
    assert_eq!(DIDRegistry::new().check_owner(), Err(DidError::NotInitialized));
    assert_eq!(r.check_owner(), Ok(()));
}

#[test]
fn nothing_changes_before_initialize() {
    let r = DIDRegistry::new();
    assert_eq!(r.check_register(&b("did:example:1")), Err(DidError::NotInitialized));
    assert_eq!(r.check_record(&b("did:example:1"), DidError::DidNotFound), Err(DidError::NotInitialized));
    assert_eq!(r.check_owner(), Err(DidError::NotInitialized));
}

#[test]
fn did_uris_start_with_did() {
    assert_eq!(validate_did_uri(&b("did:example:123")), Ok(()));
    assert_eq!(validate_did_uri(&b("did:")), Ok(()));
    assert_eq!(validate_did_uri(&b("did")), Err(DidError::InvalidDidUri));
    assert_eq!(validate_did_uri(&b("web:example")), Err(DidError::InvalidDidUri));
    assert_eq!(validate_did_uri(&b("DID:example")), Err(DidError::InvalidDidUri));
}

#[test]
fn register_once_per_did() {
    let mut ev: Vec<DidUpdated> = Vec::new();
    let (mut r, _) = registry();
    let did = b("did:example:alice");
    register(&mut r, &did, doc_with_key(addr(2)), None, 0, &mut ev);
    assert_eq!(r.check_register(&did), Err(DidError::AlreadyRegistered));
    assert_eq!(r.check_register(&b("example:alice")), Err(DidError::InvalidDidUri));
    assert_eq!(r.check_register(&b("did:example:bob")), Ok(()));
    assert!(r.is_did_valid(0, &did));
    assert!(!r.is_did_valid(0, &b("did:example:bob")));
    let doc = document(&r, 0, &did);
    assert_eq!(doc.verification_method.len(), 1);
    assert_eq!(doc.verification_method[0].controller, addr(2));
}

#[test]
fn expiry_and_revocation() {
    let mut ev: Vec<DidUpdated> = Vec::new();
    let (mut r, _) = registry();
    let did = b("did:example:carol");
    register(&mut r, &did, doc_with_key(addr(2)), Some(100), 0, &mut ev);
    assert!(r.is_did_valid(99, &did));
    assert!(!r.is_did_valid(100, &did));
    r.set_expiration(&did, None, 0, &mut ev);
    assert!(r.is_did_valid(1_000_000, &did));
    r.revoke_did(&did, 0, &mut ev);
    // Revoked stays invalid whatever the time, even with the expiry cleared.
    assert!(!r.is_did_valid(0, &did));
    r.set_expiration(&did, None, 0, &mut ev);
    assert!(!r.is_did_valid(5, &did));
    r.update_did_document(&did, doc_with_key(addr(3)), 0, &mut ev);
    assert!(!r.is_did_valid(5, &did));
    assert_eq!(r.check_record(&b("did:example:none"), DidError::DidNotFound), Err(DidError::DidNotFound));
    assert_eq!(r.check_record(&did, DidError::DidNotFound), Ok(()));
}

#[test]
fn verification_methods() {
    let mut ev: Vec<DidUpdated> = Vec::new();
    let (mut r, _) = registry();
    let did = b("did:example:dave");
    register(&mut r, &did, doc_with_key(addr(2)), None, 0, &mut ev);
    r.add_verification_method(&did, method("#key-2", addr(3), "z6Mk2"), 0, &mut ev);
    assert_eq!(r.check_method(&did, &b("#key-2")), Ok(()));
    r.rotate_verification_method(&did, &b("#key-2"), &b("z6MkNEW"), 0, &mut ev);
    {
        let doc = document(&r, 0, &did);
        assert_eq!(doc.verification_method.len(), 2);
        assert_eq!(doc.verification_method[1].public_key_multibase, b("z6MkNEW"));
        assert_eq!(doc.verification_method[1].controller, addr(3));
        assert_eq!(doc.verification_method[0].public_key_multibase, b("z6Mk1"));
    }
    r.remove_verification_method(&did, &b("#key-1"), 0, &mut ev);
    assert_eq!(r.check_method(&did, &b("#key-1")), Err(DidError::MethodNotFound));
    assert_eq!(r.check_method(&did, &b("#key-9")), Err(DidError::MethodNotFound));
    assert_eq!(r.check_method(&b("did:example:none"), &b("#key-2")), Err(DidError::DocumentMissing));
    assert_eq!(r.check_record(&b("did:example:none"), DidError::DocumentMissing), Err(DidError::DocumentMissing));
    let doc = document(&r, 0, &did);
    assert_eq!(doc.verification_method.len(), 1);
    assert_eq!(doc.verification_method[0].id, b("#key-2"));
}

#[test]
fn services() {
    let mut ev: Vec<DidUpdated> = Vec::new();
    let (mut r, _) = registry();
    let did = b("did:example:erin");
    register(&mut r, &did, doc_with_key(addr(2)), None, 0, &mut ev);
    let hub = Service { id: b("#hub"), service_endpoint: b("https://hub.example") };
    assert_eq!(r.check_service(&did, &hub.id, true), Ok(()));
    r.add_service(&did, hub.clone());
    assert_eq!(r.check_service(&did, &hub.id, true), Err(DidError::ServiceExists));
    assert_eq!(r.check_service(&did, &b("#other"), false), Err(DidError::ServiceNotFound));
    assert_eq!(document(&r, 0, &did).service.len(), 1);
    assert_eq!(r.check_service(&did, &b("#hub"), false), Ok(()));
    r.remove_service(&did, &b("#hub"));
    assert_eq!(document(&r, 0, &did).service.len(), 0);
}

#[test]
fn update_document_replaces_it() {
    let mut ev: Vec<DidUpdated> = Vec::new();
    let (mut r, _) = registry();
    let did = b("did:example:frank");
    register(&mut r, &did, doc_with_key(addr(2)), None, 0, &mut ev);
    let empty = DIDDocument { verification_method: Vec::new(), service: Vec::new() };
    r.update_did_document(&did, empty, 0, &mut ev);
    assert!(document(&r, 0, &did).verification_method.is_empty());
    assert_eq!(r.check_record(&b("did:x"), DidError::DidNotFound), Err(DidError::DidNotFound));
}

#[test]
fn claims_are_listed_per_subject_in_order() {
    let (mut r, _) = registry();
    r.add_claim(Claim { subject: addr(5), data: b("over 18") });
    r.add_claim(Claim { subject: addr(6), data: b("resident") });
    r.add_claim(Claim { subject: addr(5), data: b("kyc") });
    let claims = r.get_claims(addr(5));
    assert_eq!(claims.len(), 2);
    assert_eq!(claims[0].data, b("over 18"));
    assert_eq!(claims[1].data, b("kyc"));
    assert!(r.get_claims(addr(7)).is_empty());
}

#[test]
fn attestations_are_verified_against_the_record() {
    let mut ev: Vec<DidUpdated> = Vec::new();
    let (mut r, owner) = registry();
    let did = b("did:example:gina");
    let controller = addr(2);
    register(&mut r, &did, doc_with_key(controller), None, 0, &mut ev);

    let by_owner = Attestation { claim_hash: b("h1"), attester: owner, timestamp: 10, signature: b("sig") };
    let by_controller = Attestation { claim_hash: b("h1"), attester: controller, timestamp: 11, signature: b("sig2") };
    let by_stranger = Attestation { claim_hash: b("h2"), attester: addr(8), timestamp: 12, signature: b("sig3") };
    r.attest_claim(by_owner.clone());
    r.attest_claim(by_controller.clone());
    r.attest_claim(by_stranger.clone());

    assert_eq!(r.get_attestations(&b("h1")).len(), 2);
    assert_eq!(r.get_attestations(&b("h2")).len(), 1);
    assert!(r.verify_attestation(&by_owner));
    assert!(r.verify_attestation(&by_controller));
    assert!(!r.verify_attestation(&by_stranger));

    let unrecorded = Attestation { claim_hash: b("h1"), attester: owner, timestamp: 99, signature: b("sig") };
    assert!(!r.verify_attestation(&unrecorded));
    let unsigned = Attestation { claim_hash: b("h1"), attester: owner, timestamp: 10, signature: Vec::new() };
    assert!(!r.verify_attestation(&unsigned));
    let untimed = Attestation { claim_hash: b("h1"), attester: owner, timestamp: 0, signature: b("sig") };
    assert!(!r.verify_attestation(&untimed));
}

#[test]
fn error_messages() {
    assert_eq!(DidError::InvalidDidUri.message(), "invalid DID URI format");
    assert_eq!(DidError::DidInvalid.message(), "DID is invalid (expired or revoked)");
    assert_eq!(DidError::ServiceExists.message(), "service already exists");
    assert_eq!(DidError::MethodNotFound.message(), "verification method not found");
}

#[test]
fn changes_publish_did_updated_events() {
    let (mut r, _) = registry();
    let mut ev: Vec<DidUpdated> = Vec::new();
    let did = b("did:example:hana");
    register(&mut r, &did, doc_with_key(addr(2)), None, 10, &mut ev);
    r.revoke_did(&did, 20, &mut ev);
    assert_eq!(ev.len(), 2);
    assert_eq!(ev[0].did, did);
    assert_eq!(ev[0].action, DidAction::Register);
    assert_eq!(ev[0].timestamp, 10);
    assert_eq!(ev[1].action.name(), "revoke");
    assert_eq!(ev[1].timestamp, 20);
}
