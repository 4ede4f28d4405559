use soroscope::ledger::Account;
use soroscope::soulbound_token::{Error, SoulboundToken};

fn fail<T>(e: Error) -> T {
    panic!("{}", e.message())
}

fn account(n: u128) -> Account {
    Account { contract: false, key_hi: 0, key_lo: n }
}

fn init() -> (SoulboundToken, Account) {
    let mut client = SoulboundToken::new();
    let admin = account(1);
    let user1 = account(2);
    client.check_initialize().unwrap_or_else(|e| fail(e));
    client.initialize(admin, 0, String::from("Soulbound Token"), String::from("SBT"));
    (client, user1)
}

fn mint(client: &mut SoulboundToken, to: Account) {
    client.check_mint(to).unwrap_or_else(|e| fail(e));
    client.mint(to);
}

fn mint_identity(client: &mut SoulboundToken, to: Account, metadata: String) {
    client.check_mint(to).unwrap_or_else(|e| fail(e));
    client.mint_identity(to, metadata);
}

fn admin_transfer(client: &mut SoulboundToken, from: Account, to: Account) {
    client.check_admin_transfer(from, to).unwrap_or_else(|e| fail(e));
    client.admin_transfer(from, to);
}

fn burn(client: &mut SoulboundToken, from: Account) {
    client.check_burn(from).unwrap_or_else(|e| fail(e));
    client.burn(from);
}

fn revoke(client: &mut SoulboundToken, from: Account) {
    client.check_issuer_change(from, true).unwrap_or_else(|e| fail(e));
    client.revoke(from);
}

fn update_metadata(client: &mut SoulboundToken, to: Account, metadata: String) {
    client.check_issuer_change(to, false).unwrap_or_else(|e| fail(e));
    client.update_metadata(to, metadata);
}

#[test]
fn test_mint_and_balance() {
    let (mut client, user1) = init();
    mint(&mut client, user1);
    assert_eq!(client.balance(user1), 1);
}

#[test]
fn test_transfer_returns_unauthorized() {
    let (mut client, user1) = init();
    let user2 = account(3);

    mint(&mut client, user1);

    let err = client.transfer(user1, user2, 1);
    assert_eq!(err, Err(Error::Unauthorized));
    assert_eq!(client.balance(user1), 1);
    assert_eq!(client.balance(user2), 0);

    let err = client.transfer_from(user2, user1, user2, 1);
    assert_eq!(err, Err(Error::Unauthorized));
    assert_eq!(client.balance(user1), 1);
}

#[test]
fn test_admin_transfer() {
    let (mut client, user1) = init();
    let user2 = account(3);

    mint(&mut client, user1);
    assert_eq!(client.balance(user1), 1);
    assert_eq!(client.balance(user2), 0);

    admin_transfer(&mut client, user1, user2);
    assert_eq!(client.balance(user1), 0);
    assert_eq!(client.balance(user2), 1);
}

#[test]
fn test_test_burn() {
    let (mut client, user1) = init();

    mint(&mut client, user1);
    assert_eq!(client.balance(user1), 1);

    burn(&mut client, user1);
    assert_eq!(client.balance(user1), 0);
}

#[test]
#[should_panic(expected = "cannot hold more than one soulbound token")]
fn test_mint_twice_panics() {
    let (mut client, user1) = init();
    mint(&mut client, user1);
    mint(&mut client, user1);
}

#[test]
fn test_revoke_by_admin() {
    let (mut client, user1) = init();

    mint(&mut client, user1);
    assert_eq!(client.balance(user1), 1);

    revoke(&mut client, user1);
    assert_eq!(client.balance(user1), 0);
}

#[test]
#[should_panic(expected = "no token to revoke")]
fn test_revoke_no_token_panics() {
    let (mut client, user1) = init();
    revoke(&mut client, user1);
}

#[test]
fn test_mint_identity_badge_tied_to_address() {
    let (mut client, user1) = init();
    let metadata = String::from("ipfs://identity/kyc-v1");

    mint_identity(&mut client, user1, metadata.clone());
    assert_eq!(client.balance(user1), 1);
    assert_eq!(client.identity_metadata(user1), metadata);
}

#[test]
fn test_issuer_metadata_update() {
    let (mut client, user1) = init();
    mint_identity(&mut client, user1, String::from("ipfs://v1"));

    let updated = String::from("ipfs://v2");
    update_metadata(&mut client, user1, updated.clone());
    assert_eq!(client.identity_metadata(user1), updated);
    assert_eq!(client.balance(user1), 1);
}

#[test]
#[should_panic(expected = "no token to update")]
fn test_update_metadata_without_badge_panics() {
    let (mut client, user1) = init();
    update_metadata(&mut client, user1, String::from("ipfs://missing"));
}

#[test]
fn test_revoke_clears_identity_metadata() {
    let (mut client, user1) = init();
    mint_identity(&mut client, user1, String::from("ipfs://v1"));
    revoke(&mut client, user1);
    assert_eq!(client.balance(user1), 0);
    assert_eq!(client.identity_metadata(user1), String::from(""));
}

// ── Further checks ───────────────────────────────────────────────────────────

#[test]
fn test_admin_transfer_moves_metadata_and_refuses_a_holder() {
    let (mut client, user1) = init();
    let user2 = account(3);
    let user3 = account(4);
    mint_identity(&mut client, user1, String::from("ipfs://kyc"));
    mint(&mut client, user3);
    // The receiving account must not already hold a badge.
    assert_eq!(client.check_admin_transfer(user1, user3), Err(Error::AlreadyMinted));
    assert_eq!(client.balance(user1), 1);
    admin_transfer(&mut client, user1, user2);
    assert_eq!(client.identity_metadata(user2), String::from("ipfs://kyc"));
    assert_eq!(client.identity_metadata(user1), String::from(""));
    // Moving from an account without a badge is refused.
    assert_eq!(client.check_admin_transfer(user1, user2), Err(Error::InsufficientBalance));
}

#[test]
fn test_soulbound_metadata_and_errors() {
    let (client, _) = init();
    assert_eq!(client.decimals(), 0);
    assert_eq!(client.name(), String::from("Soulbound Token"));
    assert_eq!(client.symbol(), String::from("SBT"));
    let fresh = SoulboundToken::new();
    assert_eq!(fresh.check_mint(account(5)), Err(Error::NotInitialized));
    assert_eq!(fresh.check_burn(account(5)), Err(Error::InsufficientBalance));
    assert_eq!(fresh.check_issuer_change(account(5), true), Err(Error::NotInitialized));
    assert_eq!(client.check_issuer_change(account(5), true), Err(Error::NoTokenToRevoke));
    assert_eq!(client.check_issuer_change(account(5), false), Err(Error::NoTokenToUpdate));
    assert_eq!(Error::AlreadyMinted.code(), 4);
    assert_eq!(Error::NoTokenToRevoke.code(), 0);
    assert_eq!(client.check_initialize(), Err(Error::AlreadyInitialized));
    assert_eq!(fresh.check_initialize(), Ok(()));
}
