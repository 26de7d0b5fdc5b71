use token_swap_escrow::error::EscrowError;
use token_swap_escrow::identity::Identity;
use token_swap_escrow::ledger::Ledger;

fn id(byte: u8) -> Identity {
    Identity::new([byte; 32])
}

#[test]
fn new_ledger_is_empty() {
    let ledger = Ledger::new();
    assert_eq!(ledger.balance_of(&id(1), &id(2)), 0);
    assert_eq!(ledger.supply_of(&id(2)), 0);
}

#[test]
fn issue_adds_to_balance_and_supply() {
    let mut ledger = Ledger::new();
    assert!(ledger.issue(&id(1), &id(10), 70));
    assert!(ledger.issue(&id(1), &id(10), 5));
    assert!(ledger.issue(&id(2), &id(10), 25));
    assert!(ledger.issue(&id(1), &id(11), 3));
    assert_eq!(ledger.balance_of(&id(1), &id(10)), 75);
    assert_eq!(ledger.balance_of(&id(2), &id(10)), 25);
    assert_eq!(ledger.balance_of(&id(1), &id(11)), 3);
    assert_eq!(ledger.balance_of(&id(2), &id(11)), 0);
    assert_eq!(ledger.supply_of(&id(10)), 100);
    assert_eq!(ledger.supply_of(&id(11)), 3);
}

#[test]
fn issue_refuses_a_supply_beyond_u64() {
    let mut ledger = Ledger::new();
    assert!(ledger.issue(&id(1), &id(10), u64::MAX - 1));
    assert!(!ledger.issue(&id(2), &id(10), 2));
    assert_eq!(ledger.balance_of(&id(2), &id(10)), 0);
    assert_eq!(ledger.supply_of(&id(10)), u64::MAX - 1);
    assert!(ledger.issue(&id(2), &id(10), 1));
    assert_eq!(ledger.supply_of(&id(10)), u64::MAX);
    assert!(ledger.issue(&id(2), &id(11), u64::MAX));
}

#[test]
fn transfer_debits_and_credits() {
    let mut ledger = Ledger::new();
    assert!(ledger.issue(&id(1), &id(10), 100));
    assert_eq!(ledger.transfer(&id(10), &id(1), &id(2), 30), Ok(()));
    assert_eq!(ledger.balance_of(&id(1), &id(10)), 70);
    assert_eq!(ledger.balance_of(&id(2), &id(10)), 30);
    assert_eq!(ledger.supply_of(&id(10)), 100);
    assert_eq!(ledger.transfer(&id(10), &id(1), &id(2), 70), Ok(()));
    assert_eq!(ledger.balance_of(&id(1), &id(10)), 0);
    assert_eq!(ledger.balance_of(&id(2), &id(10)), 100);
}

#[test]
fn transfer_beyond_the_balance_is_refused() {
    let mut ledger = Ledger::new();
    assert!(ledger.issue(&id(1), &id(10), 100));
    assert_eq!(
        ledger.transfer(&id(10), &id(1), &id(2), 101),
        Err(EscrowError::InsufficientFunds)
    );
    assert_eq!(
        ledger.transfer(&id(11), &id(1), &id(2), 1),
        Err(EscrowError::InsufficientFunds)
    );
    assert_eq!(
        ledger.transfer(&id(10), &id(2), &id(1), 1),
        Err(EscrowError::InsufficientFunds)
    );
    assert_eq!(ledger.balance_of(&id(1), &id(10)), 100);
    assert_eq!(ledger.balance_of(&id(2), &id(10)), 0);
}

#[test]
fn transfer_to_oneself_changes_nothing() {
    let mut ledger = Ledger::new();
    assert!(ledger.issue(&id(1), &id(10), 100));
    assert_eq!(ledger.transfer(&id(10), &id(1), &id(1), 100), Ok(()));
    assert_eq!(ledger.balance_of(&id(1), &id(10)), 100);
    assert_eq!(
        ledger.transfer(&id(10), &id(1), &id(1), 101),
        Err(EscrowError::InsufficientFunds)
    );
    assert_eq!(ledger.supply_of(&id(10)), 100);
}

#[test]
fn transfer_of_nothing_succeeds() {
    let mut ledger = Ledger::new();
    assert_eq!(ledger.transfer(&id(10), &id(1), &id(2), 0), Ok(()));
    assert_eq!(ledger.balance_of(&id(2), &id(10)), 0);
}

#[test]
fn transfer_can_fill_an_account_to_the_brim() {
    let mut ledger = Ledger::new();
    assert!(ledger.issue(&id(1), &id(10), u64::MAX - 5));
    assert!(ledger.issue(&id(2), &id(10), 5));
    assert_eq!(ledger.transfer(&id(10), &id(2), &id(1), 5), Ok(()));
    assert_eq!(ledger.balance_of(&id(1), &id(10)), u64::MAX);
    assert_eq!(ledger.balance_of(&id(2), &id(10)), 0);
}
