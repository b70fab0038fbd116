use tcr::error::Error;
use tcr::hashing::ListingHash;
use tcr::token::{Event, GenesisConfig, Module as Token};

const ESCROW: ListingHash = [3; 32];
const OTHER: ListingHash = [4; 32];

fn minted(total_supply: u64) -> Token {
    let mut token = Token::new(GenesisConfig { total_supply });
    token.init(1).unwrap();
    token
}

#[test]
fn new_ledger_holds_nothing() {
    let token = Token::new(GenesisConfig { total_supply: 1000 });
    assert!(!token.is_init());
    assert_eq!(token.total_supply(), 1000);
    assert_eq!(token.balance_of(1), 0);
    assert_eq!(token.allowance(1, 2), 0);
    assert_eq!(token.locked_deposits(ESCROW), 0);
}

#[test]
fn init_mints_once() {
    let mut token = Token::new(GenesisConfig { total_supply: 1000 });
    assert_eq!(token.init(1), Ok(()));
    assert!(token.is_init());
    assert_eq!(token.balance_of(1), 1000);
    assert_eq!(token.init(2), Err(Error::AlreadyInitialized));
    assert_eq!(token.balance_of(2), 0);
    assert_eq!(token.balance_of(1), 1000);
}

#[test]
fn transfer_moves_the_amount() {
    let mut token = minted(1000);
    assert_eq!(token.transfer(1, 2, 200), Ok(vec![Event::Transfer(1, 2, 200)]));
    assert_eq!(token.balance_of(1), 800);
    assert_eq!(token.balance_of(2), 200);
    assert_eq!(token.transfer(2, 1, 200), Ok(vec![Event::Transfer(2, 1, 200)]));
    assert_eq!(token.balance_of(1), 1000);
    assert_eq!(token.balance_of(2), 0);
    assert_eq!(token.transfer(2, 3, 0), Ok(vec![Event::Transfer(2, 3, 0)]));
}

#[test]
fn transfer_refusals() {
    let mut token = minted(u64::MAX);
    assert_eq!(token.transfer(5, 2, 1), Err(Error::UnknownAccount));
    token.transfer(1, 2, 10).unwrap();
    assert_eq!(token.balance_of(1), u64::MAX - 10);
    assert_eq!(token.transfer(2, 1, 11), Err(Error::InsufficientBalance));
    assert_eq!(token.balance_of(2), 10);
    assert_eq!(token.transfer(2, 1, 10), Ok(vec![Event::Transfer(2, 1, 10)]));
    assert_eq!(token.balance_of(1), u64::MAX);
    assert_eq!(token.balance_of(2), 0);
    assert_eq!(token.transfer(2, 1, 1), Err(Error::InsufficientBalance));
    assert_eq!(token.check_transfer(2, 1, 0), Ok(()));
    assert_eq!(token.check_transfer(1, 2, u64::MAX), Ok(()));
    assert_eq!(token.check_transfer(3, 3, 0), Err(Error::UnknownAccount));
    assert_eq!(token.balance_of(1), u64::MAX);
}

#[test]
fn transfer_to_oneself_moves_nothing() {
    let mut token = minted(1000);
    token.transfer(1, 2, 300).unwrap();
    assert_eq!(token.transfer(1, 1, 200), Ok(vec![Event::Transfer(1, 1, 200)]));
    assert_eq!(token.balance_of(1), 700);
    assert_eq!(token.balance_of(2), 300);
    assert_eq!(token.transfer(1, 1, 700), Ok(vec![Event::Transfer(1, 1, 700)]));
    assert_eq!(token.balance_of(1), 700);
    assert_eq!(token.transfer(1, 1, 701), Err(Error::InsufficientBalance));
    assert_eq!(token.transfer(5, 5, 0), Err(Error::UnknownAccount));
    assert_eq!(token.balance_of(1) + token.balance_of(2), 1000);
}

#[test]
fn transfer_to_oneself_of_the_whole_supply_fits() {
    let mut token = minted(u64::MAX);
    assert_eq!(token.transfer(1, 1, u64::MAX), Ok(vec![Event::Transfer(1, 1, u64::MAX)]));
    assert_eq!(token.balance_of(1), u64::MAX);
}

#[test]
fn approve_adds_up() {
    let mut token = minted(1000);
    assert_eq!(token.approve(1, 2, 30), Ok(vec![Event::Approval(1, 2, 30)]));
    assert_eq!(token.approve(1, 2, 12), Ok(vec![Event::Approval(1, 2, 12)]));
    assert_eq!(token.allowance(1, 2), 42);
    assert_eq!(token.allowance(2, 1), 0);
    assert_eq!(token.approve(2, 1, 5), Err(Error::UnknownAccount));
    assert_eq!(token.approve(1, 2, u64::MAX - 41), Err(Error::ArithmeticOverflow));
    assert_eq!(token.allowance(1, 2), 42);
    assert_eq!(token.approve(1, 2, u64::MAX - 42), Ok(vec![Event::Approval(1, 2, u64::MAX - 42)]));
    assert_eq!(token.allowance(1, 2), u64::MAX);
}

#[test]
fn transfer_from_draws_on_the_allowance_of_the_spender() {
    let mut token = minted(1000);
    token.approve(1, 2, 50).unwrap();
    assert_eq!(
        token.transfer_from(2, 1, 3, 20),
        Ok(vec![Event::Approval(1, 2, 20), Event::Transfer(1, 3, 20)])
    );
    assert_eq!(token.allowance(1, 2), 30);
    assert_eq!(token.allowance(1, 3), 0);
    assert_eq!(token.balance_of(1), 980);
    assert_eq!(token.balance_of(2), 0);
    assert_eq!(token.balance_of(3), 20);
    assert_eq!(token.transfer_from(2, 1, 2, 30).map(|events| events.len()), Ok(2));
    assert_eq!(token.allowance(1, 2), 0);
    assert_eq!(token.balance_of(2), 30);
    assert_eq!(token.balance_of(1), 950);
}

#[test]
fn transfer_from_refusals() {
    let mut token = minted(1000);
    assert_eq!(token.transfer_from(2, 1, 2, 1), Err(Error::InsufficientAllowance));
    token.approve(1, 2, 50).unwrap();
    assert_eq!(token.transfer_from(2, 1, 2, 51), Err(Error::InsufficientAllowance));
    assert_eq!(token.transfer_from(9, 1, 2, 1), Err(Error::InsufficientAllowance));
    assert_eq!(token.transfer_from(3, 1, 2, 1), Err(Error::InsufficientAllowance));
    assert_eq!(token.allowance(1, 2), 50);
    assert_eq!(token.balance_of(1), 1000);
    assert_eq!(token.balance_of(2), 0);
}

#[test]
fn transfer_from_with_an_allowance_is_refused_as_the_transfer_is() {
    let mut token = minted(1000);
    token.approve(1, 3, 5000).unwrap();
    assert_eq!(token.transfer_from(3, 1, 4, 1001), Err(Error::InsufficientBalance));
    assert_eq!(token.allowance(1, 3), 5000);
    assert_eq!(token.allowance(1, 4), 0);
    assert_eq!(token.balance_of(1), 1000);
    assert_eq!(token.balance_of(3), 0);
    assert_eq!(token.balance_of(4), 0);
    assert_eq!(token.transfer_from(3, 1, 4, 1000).map(|events| events.len()), Ok(2));
    assert_eq!(token.allowance(1, 3), 4000);
    assert_eq!(token.balance_of(4), 1000);
}

#[test]
fn transfer_from_to_the_owner_draws_on_the_allowance_only() {
    let mut token = minted(1000);
    token.approve(1, 2, 50).unwrap();
    assert_eq!(
        token.transfer_from(2, 1, 1, 20),
        Ok(vec![Event::Approval(1, 2, 20), Event::Transfer(1, 1, 20)])
    );
    assert_eq!(token.allowance(1, 2), 30);
    assert_eq!(token.balance_of(1), 1000);
}

#[test]
fn lock_keeps_something_free() {
    let mut token = minted(1000);
    assert_eq!(token.lock(1, 1000, ESCROW), Err(Error::InsufficientBalance));
    assert_eq!(token.lock(1, 1001, ESCROW), Err(Error::InsufficientBalance));
    assert_eq!(token.balance_of(1), 1000);
    assert_eq!(token.locked_deposits(ESCROW), 0);
    assert_eq!(token.lock(1, 999, ESCROW), Ok(()));
    assert_eq!(token.balance_of(1), 1);
    assert_eq!(token.locked_deposits(ESCROW), 999);
    assert_eq!(token.lock(1, 1, ESCROW), Err(Error::InsufficientBalance));
    assert_eq!(token.lock(1, 0, ESCROW), Ok(()));
    assert_eq!(token.lock(2, 0, ESCROW), Err(Error::UnknownAccount));
}

#[test]
fn lock_adds_to_the_escrow_of_the_hash() {
    let mut token = minted(1000);
    token.lock(1, 101, ESCROW).unwrap();
    token.lock(1, 50, ESCROW).unwrap();
    token.lock(1, 7, OTHER).unwrap();
    assert_eq!(token.locked_deposits(ESCROW), 151);
    assert_eq!(token.locked_deposits(OTHER), 7);
    assert_eq!(token.balance_of(1), 842);
    assert_eq!(token.check_lock(1, 841, ESCROW), Ok(()));
    assert_eq!(token.check_lock(1, 842, ESCROW), Err(Error::InsufficientBalance));
    assert_eq!(token.balance_of(1), 842);
}

#[test]
fn unlock_pays_out_of_the_escrow() {
    let mut token = minted(1000);
    token.lock(1, 101, ESCROW).unwrap();
    assert_eq!(token.unlock(2, 102, ESCROW), Err(Error::ArithmeticUnderflow));
    assert_eq!(token.unlock(2, 1, OTHER), Err(Error::ArithmeticUnderflow));
    assert_eq!(token.check_unlock(2, 101, ESCROW), Ok(()));
    assert_eq!(token.locked_deposits(ESCROW), 101);
    assert_eq!(token.unlock(2, 100, ESCROW), Ok(()));
    assert_eq!(token.balance_of(2), 100);
    assert_eq!(token.locked_deposits(ESCROW), 1);
    assert_eq!(token.unlock(1, 1, ESCROW), Ok(()));
    assert_eq!(token.balance_of(1), 900);
    assert_eq!(token.locked_deposits(ESCROW), 0);
}

#[test]
fn unlock_that_does_not_fit_is_refused() {
    let mut token = minted(u64::MAX);
    token.lock(1, u64::MAX - 1, ESCROW).unwrap();
    assert_eq!(token.balance_of(1), 1);
    assert_eq!(token.unlock(1, u64::MAX, ESCROW), Err(Error::ArithmeticOverflow));
    assert_eq!(token.unlock(2, u64::MAX, ESCROW), Err(Error::ArithmeticUnderflow));
    assert_eq!(token.locked_deposits(ESCROW), u64::MAX - 1);
    assert_eq!(token.balance_of(1), 1);
    assert_eq!(token.unlock(1, u64::MAX - 1, ESCROW), Ok(()));
    assert_eq!(token.balance_of(1), u64::MAX);
    assert_eq!(token.locked_deposits(ESCROW), 0);
}

#[test]
fn tokens_are_neither_made_nor_lost() {
    let mut token = minted(1000);
    token.transfer(1, 2, 300).unwrap();
    token.approve(2, 3, 100).unwrap();
    token.transfer_from(3, 2, 4, 60).unwrap();
    token.lock(1, 200, ESCROW).unwrap();
    token.lock(2, 40, OTHER).unwrap();
    token.unlock(4, 150, ESCROW).unwrap();
    token.transfer(4, 4, 10).unwrap();
    let free = token.balance_of(1) + token.balance_of(2) + token.balance_of(3) + token.balance_of(4);
    let held = token.locked_deposits(ESCROW) + token.locked_deposits(OTHER);
    assert_eq!(token.balance_of(1), 500);
    assert_eq!(token.balance_of(2), 200);
    assert_eq!(token.balance_of(4), 210);
    assert_eq!(free + held, 1000);
}
