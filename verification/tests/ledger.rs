use cascading_donations::address::Address;
use cascading_donations::ledger::{Ledger, LedgerError};

const TOKEN: [u8; 32] = [0xAA; 32];
const OTHER: [u8; 32] = [0xBB; 32];

fn account(n: u8) -> Address {
    Address::Account([n; 32])
}

#[test]
fn new_ledger_holds_nothing() {
    let ledger = Ledger::new();
    assert_eq!(ledger.balance(&TOKEN, &account(1)), 0);
    assert_eq!(ledger.allowance(&TOKEN, &account(1), &account(2)), 0);
}

#[test]
fn mint_adds_to_what_is_held() {
    let mut ledger = Ledger::new();
    ledger.mint(&TOKEN, &account(1), 2000).unwrap();
    ledger.mint(&TOKEN, &account(1), 5).unwrap();
    assert_eq!(ledger.balance(&TOKEN, &account(1)), 2005);
    assert_eq!(ledger.balance(&OTHER, &account(1)), 0);
    assert_eq!(ledger.balance(&TOKEN, &account(2)), 0);
}

#[test]
fn mint_beyond_the_largest_balance_is_refused() {
    let mut ledger = Ledger::new();
    ledger.mint(&TOKEN, &account(1), u128::MAX).unwrap();
    assert_eq!(ledger.mint(&TOKEN, &account(1), 1), Err(LedgerError::BalanceOverflow));
    assert_eq!(ledger.balance(&TOKEN, &account(1)), u128::MAX);
}

#[test]
fn transfer_moves_the_amount() {
    let mut ledger = Ledger::new();
    ledger.mint(&TOKEN, &account(1), 50).unwrap();

    ledger.transfer(&TOKEN, &account(1), &account(2), 20).unwrap();

    assert_eq!(ledger.balance(&TOKEN, &account(1)), 30);
    assert_eq!(ledger.balance(&TOKEN, &account(2)), 20);
}

#[test]
fn transfer_of_more_than_is_held_is_refused() {
    let mut ledger = Ledger::new();
    ledger.mint(&TOKEN, &account(1), 50).unwrap();

    assert_eq!(
        ledger.transfer(&TOKEN, &account(1), &account(2), 51),
        Err(LedgerError::InsufficientBalance)
    );
    assert_eq!(ledger.balance(&TOKEN, &account(1)), 50);
    assert_eq!(ledger.balance(&TOKEN, &account(2)), 0);
}

#[test]
fn transfer_to_oneself_changes_nothing() {
    let mut ledger = Ledger::new();
    ledger.mint(&TOKEN, &account(1), u128::MAX).unwrap();

    ledger.transfer(&TOKEN, &account(1), &account(1), u128::MAX).unwrap();

    assert_eq!(ledger.balance(&TOKEN, &account(1)), u128::MAX);
}

#[test]
fn transfer_that_would_overflow_the_receiver_is_refused() {
    let mut ledger = Ledger::new();
    ledger.mint(&TOKEN, &account(1), 10).unwrap();
    ledger.mint(&TOKEN, &account(2), u128::MAX - 5).unwrap();

    assert_eq!(
        ledger.transfer(&TOKEN, &account(1), &account(2), 6),
        Err(LedgerError::BalanceOverflow)
    );
    assert_eq!(ledger.balance(&TOKEN, &account(1)), 10);
    assert_eq!(ledger.balance(&TOKEN, &account(2)), u128::MAX - 5);
}

#[test]
fn transfer_of_nothing_always_goes_through() {
    let mut ledger = Ledger::new();
    ledger.transfer(&TOKEN, &account(1), &account(2), 0).unwrap();
    assert_eq!(ledger.balance(&TOKEN, &account(2)), 0);
}

#[test]
fn currencies_are_kept_apart() {
    let mut ledger = Ledger::new();
    ledger.mint(&TOKEN, &account(1), 50).unwrap();
    ledger.mint(&OTHER, &account(1), 7).unwrap();

    ledger.transfer(&OTHER, &account(1), &account(2), 7).unwrap();

    assert_eq!(ledger.balance(&TOKEN, &account(1)), 50);
    assert_eq!(ledger.balance(&OTHER, &account(1)), 0);
    assert_eq!(ledger.balance(&OTHER, &account(2)), 7);
    assert_eq!(ledger.balance(&TOKEN, &account(2)), 0);
}

#[test]
fn approval_replaces_the_one_before() {
    let mut ledger = Ledger::new();
    ledger.approve(&TOKEN, &account(1), &account(2), 100);
    ledger.approve(&TOKEN, &account(1), &account(2), 40);
    assert_eq!(ledger.allowance(&TOKEN, &account(1), &account(2)), 40);
    assert_eq!(ledger.allowance(&TOKEN, &account(2), &account(1)), 0);
    assert_eq!(ledger.allowance(&OTHER, &account(1), &account(2)), 0);
}

#[test]
fn transfer_from_spends_the_allowance() {
    let mut ledger = Ledger::new();
    ledger.mint(&TOKEN, &account(1), 2000).unwrap();
    ledger.approve(&TOKEN, &account(1), &account(9), 1000);

    ledger.transfer_from(&TOKEN, &account(9), &account(1), &account(3), 600).unwrap();

    assert_eq!(ledger.balance(&TOKEN, &account(1)), 1400);
    assert_eq!(ledger.balance(&TOKEN, &account(3)), 600);
    assert_eq!(ledger.balance(&TOKEN, &account(9)), 0);
    assert_eq!(ledger.allowance(&TOKEN, &account(1), &account(9)), 400);
}

#[test]
fn transfer_from_beyond_the_allowance_is_refused() {
    let mut ledger = Ledger::new();
    ledger.mint(&TOKEN, &account(1), 2000).unwrap();
    ledger.approve(&TOKEN, &account(1), &account(9), 1000);

    assert_eq!(
        ledger.transfer_from(&TOKEN, &account(9), &account(1), &account(3), 1001),
        Err(LedgerError::InsufficientAllowance)
    );
    assert_eq!(ledger.balance(&TOKEN, &account(1)), 2000);
    assert_eq!(ledger.allowance(&TOKEN, &account(1), &account(9)), 1000);
}

#[test]
fn transfer_from_beyond_the_balance_keeps_the_allowance() {
    let mut ledger = Ledger::new();
    ledger.mint(&TOKEN, &account(1), 10).unwrap();
    ledger.approve(&TOKEN, &account(1), &account(9), 1000);

    assert_eq!(
        ledger.transfer_from(&TOKEN, &account(9), &account(1), &account(3), 11),
        Err(LedgerError::InsufficientBalance)
    );
    assert_eq!(ledger.balance(&TOKEN, &account(1)), 10);
    assert_eq!(ledger.allowance(&TOKEN, &account(1), &account(9)), 1000);
}

#[test]
fn copy_of_a_ledger_goes_its_own_way() {
    let mut ledger = Ledger::new();
    ledger.mint(&TOKEN, &account(1), 10).unwrap();
    let kept = ledger.clone();

    ledger.transfer(&TOKEN, &account(1), &account(2), 10).unwrap();

    assert_eq!(kept.balance(&TOKEN, &account(1)), 10);
    assert_eq!(ledger.balance(&TOKEN, &account(1)), 0);
}
