use soroscope::admin_guard::GuardError;
use soroban_sdk::xdr::{FromXdr, ToXdr};
use soroban_sdk::{Address, Bytes, Env, Symbol};
use soroscope::auction_factory::{address_xdr, deployment_salt, AuctionFactory, AuctionInit, AuctionType, DeploymentFee, FactoryError};
use soroscope::ledger::{Account, Transfer};

struct Gen {
    next: u128,
}

impl Gen {
    fn new() -> Self {
        Gen { next: 1 }
    }

    fn address(&mut self) -> Account {
        self.next += 1;
        Account { contract: false, key_hi: 7, key_lo: self.next }
    }
}

/// A factory whose committee has `n_admins` admins and the given threshold.
fn setup(n_admins: u32, threshold: u32) -> (Gen, AuctionFactory, Vec<Account>) {
    let mut gen = Gen::new();
    let mut client = AuctionFactory::new();
    let mut admins = Vec::new();
    for _ in 0..n_admins {
        admins.push(gen.address());
    }
    client.initialize(admins.clone(), threshold).unwrap();
    (gen, client, admins)
}

// ── initialization sanity ────────────────────────────────────────────────────

#[test]
fn test_initialize_stores_admins_and_threshold() {
    let (_gen, client, admins) = setup(3, 2);

    assert_eq!(client.get_admins().len(), 3);
    assert_eq!(client.get_threshold(), 2);

    for a in admins.iter() {
        assert!(client.is_admin(*a));
    }
}

#[test]
fn test_initialize_rejects_zero_threshold() {
    let mut gen = Gen::new();
    let mut client = AuctionFactory::new();
    let admins = vec![gen.address()];
    let result = client.initialize(admins, 0);
    assert_eq!(result, Err(GuardError::InvalidThreshold));
}

#[test]
fn test_initialize_rejects_threshold_exceeding_admin_count() {
    let mut gen = Gen::new();
    let mut client = AuctionFactory::new();
    let admins = vec![gen.address(), gen.address()];
    let result = client.initialize(admins, 3);
    assert_eq!(result, Err(GuardError::InvalidThreshold));
}

#[test]
fn test_initialize_cannot_be_called_twice() {
    let (mut gen, mut client, _admins) = setup(2, 1);
    let dummy = vec![gen.address()];
    let result = client.initialize(dummy, 1);
    assert_eq!(result, Err(GuardError::AlreadyInitialized));
}

// ── rotate_admin: happy path ─────────────────────────────────────────────────

#[test]
fn test_rotate_admin_succeeds_with_sufficient_approvers() {
    let (mut gen, mut client, admins) = setup(3, 2);
    let new_admin = gen.address();

    let old_admin = admins[0];
    let approvers = vec![admins[1], admins[2]];

    client.rotate_admin(&approvers, old_admin, new_admin).unwrap();

    assert_eq!(client.get_admins().len(), 3);
}

#[test]
fn test_new_admin_is_in_admin_list_after_rotation() {
    let (mut gen, mut client, admins) = setup(3, 2);
    let new_admin = gen.address();
    let old_admin = admins[0];
    let approvers = vec![admins[1], admins[2]];

    client.rotate_admin(&approvers, old_admin, new_admin).unwrap();

    assert!(client.is_admin(new_admin));
}

#[test]
fn test_old_admin_is_removed_from_admin_list_after_rotation() {
    let (mut gen, mut client, admins) = setup(3, 2);
    let new_admin = gen.address();
    let old_admin = admins[0];
    let approvers = vec![admins[1], admins[2]];

    client.rotate_admin(&approvers, old_admin, new_admin).unwrap();

    assert!(!client.is_admin(old_admin));
}

// ── new admin has full privileges ────────────────────────────────────────────

#[test]
fn test_new_admin_can_approve_multi_sig_operations() {
    let (mut gen, mut client, admins) = setup(3, 2);
    let new_admin = gen.address();
    let another_admin = gen.address();

    let old_admin = admins[0];
    let rotate_approvers = vec![admins[1], admins[2]];

    client.rotate_admin(&rotate_approvers, old_admin, new_admin).unwrap();

    let add_approvers = vec![new_admin, admins[1]];
    client.add_admin(&add_approvers, another_admin).unwrap();

    assert!(client.is_admin(another_admin));
    assert_eq!(client.get_admins().len(), 4);
}

#[test]
fn test_new_admin_can_trigger_single_admin_operations() {
    let (mut gen, mut client, admins) = setup(3, 1);
    let new_admin = gen.address();
    let old_admin = admins[0];

    let approvers = vec![admins[1]];
    client.rotate_admin(&approvers, old_admin, new_admin).unwrap();

    let extra_admin = gen.address();
    let solo_approver = vec![new_admin];
    client.add_admin(&solo_approver, extra_admin).unwrap();

    assert!(client.is_admin(extra_admin));
}

// ── old admin loses privileges ───────────────────────────────────────────────

#[test]
fn test_old_admin_cannot_approve_multi_sig_after_rotation() {
    let (mut gen, mut client, admins) = setup(3, 2);
    let new_admin = gen.address();
    let old_admin = admins[0];
    let rotate_approvers = vec![admins[1], admins[2]];

    client.rotate_admin(&rotate_approvers, old_admin, new_admin).unwrap();

    let extra_admin = gen.address();
    let bad_approvers = vec![old_admin, admins[1]];
    let result = client.add_admin(&bad_approvers, extra_admin);
    assert_eq!(result, Err(GuardError::InsufficientSignatures));
}

#[test]
fn test_old_admin_is_not_recognized_as_admin() {
    let (mut gen, mut client, admins) = setup(2, 1);
    let new_admin = gen.address();
    let old_admin = admins[0];
    let approvers = vec![admins[1]];

    client.rotate_admin(&approvers, old_admin, new_admin).unwrap();

    assert!(!client.is_admin(old_admin));
}

#[test]
fn test_old_admin_cannot_be_sole_approver_for_rotate_admin() {
    let (mut gen, mut client, admins) = setup(3, 1);
    let new_admin = gen.address();
    let old_admin = admins[0];

    let approvers = vec![admins[1]];
    client.rotate_admin(&approvers, old_admin, new_admin).unwrap();

    let another_new = gen.address();
    let bad_approvers = vec![old_admin];
    let result = client.rotate_admin(&bad_approvers, admins[1], another_new);
    assert_eq!(result, Err(GuardError::InsufficientSignatures));
}

// ── edge case: rotating to the same admin ────────────────────────────────────

#[test]
fn test_rotate_admin_to_same_address_is_a_no_op() {
    let (_gen, mut client, admins) = setup(3, 2);
    let same_admin = admins[0];
    let approvers = vec![admins[1], admins[2]];

    client.rotate_admin(&approvers, same_admin, same_admin).unwrap();

    assert!(client.is_admin(same_admin));
    assert_eq!(client.get_admins().len(), 3);
}

// ── edge case: rotating to an already-existing admin ─────────────────────────

#[test]
fn test_rotate_admin_to_existing_admin_does_not_duplicate() {
    let (_gen, mut client, admins) = setup(3, 2);
    let old_admin = admins[0];
    let existing_admin = admins[1];
    let approvers = vec![admins[1], admins[2]];

    client.rotate_admin(&approvers, old_admin, existing_admin).unwrap();

    assert!(!client.is_admin(old_admin));
    assert!(client.is_admin(existing_admin));
    assert_eq!(client.get_admins().len(), 2);
}

// ── edge case: rotating a non-existent old admin ─────────────────────────────

#[test]
fn test_rotate_admin_fails_when_old_admin_not_found() {
    let (mut gen, mut client, admins) = setup(3, 2);
    let not_an_admin = gen.address();
    let new_admin = gen.address();
    let approvers = vec![admins[0], admins[1]];

    let result = client.rotate_admin(&approvers, not_an_admin, new_admin);
    assert_eq!(result, Err(GuardError::AdminNotFound));
}

// ── edge case: insufficient signers ─────────────────────────────────────────

#[test]
fn test_rotate_admin_fails_with_zero_approvers() {
    let (mut gen, mut client, admins) = setup(3, 2);
    let new_admin = gen.address();
    let old_admin = admins[0];

    let empty_approvers: Vec<Account> = Vec::new();
    let result = client.rotate_admin(&empty_approvers, old_admin, new_admin);
    assert_eq!(result, Err(GuardError::InsufficientSignatures));
}

#[test]
fn test_rotate_admin_fails_with_one_approver_when_threshold_is_two() {
    let (mut gen, mut client, admins) = setup(3, 2);
    let new_admin = gen.address();
    let old_admin = admins[0];

    let approvers = vec![admins[1]];
    let result = client.rotate_admin(&approvers, old_admin, new_admin);
    assert_eq!(result, Err(GuardError::InsufficientSignatures));
}

#[test]
fn test_rotate_admin_fails_with_duplicate_approvers_below_threshold() {
    let (mut gen, mut client, admins) = setup(3, 2);
    let new_admin = gen.address();
    let old_admin = admins[0];

    let approvers = vec![admins[1], admins[1]];
    let result = client.rotate_admin(&approvers, old_admin, new_admin);
    assert_eq!(result, Err(GuardError::InsufficientSignatures));
}

#[test]
fn test_rotate_admin_fails_with_non_admin_approvers() {
    let (mut gen, mut client, admins) = setup(3, 2);
    let new_admin = gen.address();
    let old_admin = admins[0];

    let outsider1 = gen.address();
    let outsider2 = gen.address();
    let approvers = vec![outsider1, outsider2];
    let result = client.rotate_admin(&approvers, old_admin, new_admin);
    assert_eq!(result, Err(GuardError::InsufficientSignatures));
}

// ── full rotation cycle ──────────────────────────────────────────────────────

#[test]
fn test_full_rotation_cycle_preserves_threshold() {
    let (mut gen, mut client, admins) = setup(3, 2);

    let new0 = gen.address();
    let new1 = gen.address();
    let new2 = gen.address();

    let approvers = vec![admins[1], admins[2]];
    client.rotate_admin(&approvers, admins[0], new0).unwrap();
    assert_eq!(client.get_threshold(), 2);

    let approvers2 = vec![new0, admins[2]];
    client.rotate_admin(&approvers2, admins[1], new1).unwrap();
    assert_eq!(client.get_threshold(), 2);

    let approvers3 = vec![new0, new1];
    client.rotate_admin(&approvers3, admins[2], new2).unwrap();
    assert_eq!(client.get_threshold(), 2);

    for old in admins.iter() {
        assert!(!client.is_admin(*old));
    }
    assert!(client.is_admin(new0));
    assert!(client.is_admin(new1));
    assert!(client.is_admin(new2));
    assert_eq!(client.get_admins().len(), 3);
}

#[test]
fn test_rotate_admin_then_new_admin_can_rotate_again() {
    let (mut gen, mut client, admins) = setup(2, 1);

    let new_admin = gen.address();
    let next_admin = gen.address();

    client.rotate_admin(&vec![admins[1]], admins[0], new_admin).unwrap();

    client.rotate_admin(&vec![new_admin], admins[1], next_admin).unwrap();

    assert!(client.is_admin(new_admin));
    assert!(client.is_admin(next_admin));
    assert!(!client.is_admin(admins[0]));
    assert!(!client.is_admin(admins[1]));
}

// ── further cases ────────────────────────────────────────────────────────────

#[test]
fn rotation_keeps_the_admin_order() {
    let (mut gen, mut client, admins) = setup(3, 2);
    let new_admin = gen.address();
    client.rotate_admin(&vec![admins[0], admins[2]], admins[1], new_admin).unwrap();
    assert_eq!(client.get_admins(), vec![admins[0], new_admin, admins[2]]);
}

#[test]
fn rotation_below_threshold_is_refused() {
    // Rotating admin[0] into admin[1] would leave 2 admins under a threshold of 3.
    let (_gen, mut client, admins) = setup(3, 3);
    let result = client.rotate_admin(&admins.clone(), admins[0], admins[1]);
    assert_eq!(result, Err(GuardError::InvalidThreshold));
    assert_eq!(client.get_admins(), admins);
}

#[test]
fn operations_before_setup_are_refused() {
    let mut gen = Gen::new();
    let mut client = AuctionFactory::new();
    let a = gen.address();
    assert_eq!(client.add_admin(&vec![a], a), Err(GuardError::NotInitialized));
    assert_eq!(client.get_threshold(), 0);
    assert!(client.get_admins().is_empty());
}

#[test]
fn add_admin_twice_keeps_one_copy() {
    let (_gen, mut client, admins) = setup(2, 1);
    client.add_admin(&vec![admins[0]], admins[1]).unwrap();
    assert_eq!(client.get_admins(), admins);
}

#[test]
fn remove_admin_cases() {
    let (mut gen, mut client, admins) = setup(3, 2);
    let outsider = gen.address();
    assert_eq!(client.remove_admin(&vec![admins[0], admins[1]], outsider), Err(GuardError::AdminNotFound));
    client.remove_admin(&vec![admins[0], admins[1]], admins[2]).unwrap();
    assert_eq!(client.get_admins(), vec![admins[0], admins[1]]);
    // Two admins left for a threshold of two: no further removal.
    assert_eq!(client.remove_admin(&vec![admins[0], admins[1]], admins[1]), Err(GuardError::InvalidThreshold));
}

#[test]
fn guard_error_codes() {
    assert_eq!(GuardError::NotInitialized.code(), 0);
    assert_eq!(GuardError::InsufficientSignatures.code(), 3);
    assert_eq!(GuardError::InvalidThreshold.code(), 4);
    assert_eq!(GuardError::AdminNotFound.code(), 5);
    assert_eq!(GuardError::AlreadyInitialized.code(), 6);
}

#[test]
fn deployment_fee_needs_a_positive_amount_and_the_committee() {
    let (mut gen, mut client, admins) = setup(3, 2);
    let token = gen.address();
    let recipient = gen.address();
    assert_eq!(client.configure_deployment_fee(&vec![admins[0], admins[1]], token, recipient, 0), Err(FactoryError::InvalidFee));
    assert_eq!(client.configure_deployment_fee(&vec![admins[0]], token, recipient, 10), Err(FactoryError::Unauthorized));
    assert_eq!(client.get_deployment_fee(), None);
    client.configure_deployment_fee(&vec![admins[0], admins[1]], token, recipient, 10).unwrap();
    assert_eq!(client.get_deployment_fee(), Some(DeploymentFee { token, recipient, amount: 10 }));
    assert_eq!(FactoryError::Unauthorized.code(), 3);
}

#[test]
fn deployments_pay_the_fee_and_are_indexed() {
    let env = Env::default();
    let (mut gen, mut client, admins) = setup(1, 1);
    let token = gen.address();
    let recipient = gen.address();
    let seller = gen.address();
    let nft = gen.address();
    let pay = gen.address();
    let first = gen.address();
    let second = gen.address();
    let mut transfers: Vec<Transfer> = Vec::new();

    assert!(matches!(
        client.create_english_auction(&env, seller, nft, 7, pay, 100, 150, 50, first, &mut transfers),
        Err(FactoryError::FeeNotConfigured)
    ));
    assert!(transfers.is_empty());

    client.configure_deployment_fee(&admins, token, recipient, 25).unwrap();
    let d1 = client.create_english_auction(&env, seller, nft, 7, pay, 100, 150, 50, first, &mut transfers).unwrap();
    assert_eq!(d1.address, first);
    assert_eq!(d1.init, AuctionInit {
        seller, nft_contract: nft, token_id: 7, payment_token: pay, first_price: 100, second_price: 150, duration_ledgers: 50,
    });
    assert_eq!(d1.salt, deployment_salt(&env, seller, nft, 7, AuctionType::English));
    let d2 = client.create_dutch_auction(&env, seller, nft, 7, pay, 300, 10, 80, second, &mut transfers).unwrap();
    assert_eq!(d2.address, second);
    assert_eq!(d2.init.first_price, 300);
    assert_eq!(d2.init.second_price, 10);
    assert_ne!(d1.salt, d2.salt);
    assert_eq!(transfers, vec![
        Transfer { token, from: seller, to: recipient, amount: 25 },
        Transfer { token, from: seller, to: recipient, amount: 25 },
    ]);
    assert_eq!(client.get_auction_count(), 2);
    assert_eq!(client.get_auction_by_index(1), Some(second));
    assert_eq!(client.get_auction_by_index(2), None);
    assert_eq!(client.get_auction_type(first), Some(AuctionType::English));
    assert_eq!(client.get_auction_type(second), Some(AuctionType::Dutch));
    assert_eq!(client.get_auction_type(seller), None);
    assert_eq!(client.get_auctions(0, 10), vec![first, second]);
    assert_eq!(client.get_auctions(1, 1), vec![second]);
    assert_eq!(client.get_auctions(5, 1), Vec::<Account>::new());
}

#[test]
fn pages_are_capped_at_one_hundred() {
    let env = Env::default();
    let (mut gen, mut client, admins) = setup(1, 1);
    let token = gen.address();
    let seller = gen.address();
    client.configure_deployment_fee(&admins, token, token, 1).unwrap();
    let mut transfers = Vec::new();
    for i in 0..120 {
        let at = gen.address();
        client.create_dutch_auction(&env, seller, token, i, token, 10, 1, 5, at, &mut transfers).unwrap();
    }
    assert_eq!(client.get_auctions(0, 500).len(), 100);
    assert_eq!(client.get_auctions(50, u32::MAX).len(), 70);
}

#[test]
fn addresses_and_salts_match_the_host() {
    let env = Env::default();
    let account = Account { contract: false, key_hi: 1, key_lo: 2 };
    let contract = Account { contract: true, key_hi: u128::MAX, key_lo: 5 };
    let xa = address_xdr(account);
    assert_eq!(xa.len(), 44);
    assert_eq!(&xa[..12], &[0, 0, 0, 18, 0, 0, 0, 0, 0, 0, 0, 0]);
    assert_eq!(xa[27], 1);
    assert_eq!(xa[43], 2);
    let xc = address_xdr(contract);
    assert_eq!(xc.len(), 40);
    assert_eq!(&xc[..8], &[0, 0, 0, 18, 0, 0, 0, 1]);
    // The host reads both back and writes them out the same.
    let a = Address::from_xdr(&env, &Bytes::from_slice(&env, &xa)).unwrap();
    let c = Address::from_xdr(&env, &Bytes::from_slice(&env, &xc)).unwrap();
    let mut back = vec![0u8; 44];
    a.clone().to_xdr(&env).copy_into_slice(&mut back);
    assert_eq!(back, xa);
    // The salt is the SHA-256 of the host's XDR of (seller, nft, id, type).
    let kind = soroban_sdk::Vec::from_array(&env, [Symbol::new(&env, "English")]);
    let expected = env.crypto().sha256(&(a, c, 9i128, kind).to_xdr(&env)).to_array();
    assert_eq!(deployment_salt(&env, account, contract, 9, AuctionType::English), expected);
    assert_ne!(deployment_salt(&env, account, contract, 9, AuctionType::Dutch), expected);
}
