use soroscope::ledger::Account;
use soroscope::token_balance::{TokenError, TokenLedger};

fn receive(t: &mut TokenLedger, a: Account, amount: i128) {
    t.check_receive(a, amount).unwrap_or_else(|e| panic!("{}", e.message()));
    t.receive_balance(a, amount);
}

fn spend(t: &mut TokenLedger, a: Account, amount: i128) {
    t.check_spend(a, amount).unwrap_or_else(|e| panic!("{}", e.message()));
    t.spend_balance(a, amount);
}

fn addr(n: u128) -> Account {
    Account { contract: false, key_hi: 11, key_lo: n }
}

#[test]
fn unknown_accounts_hold_nothing() {
    let t = TokenLedger::new();
    assert_eq!(t.read_balance(addr(1)), 0);
    assert_eq!(t.read_total_supply(), 0);
    assert!(!t.has_max_supply());
    assert_eq!(TokenError::MaxSupplyNotSet.message(), "called `Option::unwrap()` on a `None` value");
}

#[test]
fn receive_then_spend() {
    let mut t = TokenLedger::new();
    receive(&mut t, addr(1), 100);
    receive(&mut t, addr(1), 50);
    assert_eq!(t.read_balance(addr(1)), 150);
    spend(&mut t, addr(1), 150);
    assert_eq!(t.read_balance(addr(1)), 0);
    assert_eq!(t.check_spend(addr(1), 1), Err(TokenError::InsufficientBalance));
    assert_eq!(t.check_spend(addr(1), 0), Ok(()));
    assert_eq!(TokenError::InsufficientBalance.message(), "insufficient balance");
}

#[test]
fn transfer_moves_only_the_amount() {
    let mut t = TokenLedger::new();
    receive(&mut t, addr(1), 70);
    receive(&mut t, addr(3), 5);
    spend(&mut t, addr(1), 30);
    receive(&mut t, addr(2), 30);
    assert_eq!(t.read_balance(addr(1)), 40);
    assert_eq!(t.read_balance(addr(2)), 30);
    assert_eq!(t.read_balance(addr(3)), 5);
}

#[test]
fn receiving_past_the_limit_overflows() {
    let mut t = TokenLedger::new();
    receive(&mut t, addr(1), i128::MAX);
    assert_eq!(t.check_receive(addr(1), 1), Err(TokenError::Overflow));
    assert_eq!(t.check_spend(addr(1), -1), Err(TokenError::Overflow));
    assert_eq!(t.read_balance(addr(1)), i128::MAX);
}

#[test]
fn supply_bookkeeping() {
    let mut t = TokenLedger::new();
    t.write_total_supply(500);
    t.write_max_supply(1_000);
    assert_eq!(t.read_total_supply(), 500);
    assert!(t.has_max_supply());
    assert_eq!(t.read_max_supply(), 1_000);
}
