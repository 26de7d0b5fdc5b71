use token_swap_escrow::error::EscrowError;
use token_swap_escrow::identity::Identity;
use token_swap_escrow::ledger::Ledger;
use token_swap_escrow::record::{EscrowRecord, Registry};
use token_swap_escrow::vault::{authorized, Custodian, Vault};

fn id(byte: u8) -> Identity {
    Identity::new([byte; 32])
}

fn record(maker: u8, offered: u8, requested: u8, amount: u64, nonce: u64) -> EscrowRecord {
    EscrowRecord {
        owner_identity: id(maker),
        asset_offered: id(offered),
        asset_requested: id(requested),
        amount_requested: amount,
        nonce,
        derivation_proof: 255,
    }
}

#[test]
fn create_stores_the_terms() {
    let mut registry = Registry::new();
    let custodian = Custodian::new();
    assert_eq!(registry.lookup(&id(50)), None);
    let made = registry.create(&id(50), 255, 7, 50, &id(1), &id(10), &id(11));
    assert_eq!(made, Ok(record(1, 10, 11, 50, 7)));
    assert_eq!(registry.lookup(&id(50)), Some(record(1, 10, 11, 50, 7)));
    assert_eq!(registry.lookup(&id(51)), None);
    assert_eq!(registry.destroy(&id(51), &custodian), Err(EscrowError::InvalidState));
}

#[test]
fn create_at_an_occupied_address_is_invalid_state() {
    let mut registry = Registry::new();
    assert!(registry.create(&id(50), 255, 7, 50, &id(1), &id(10), &id(11)).is_ok());
    assert_eq!(
        registry.create(&id(50), 254, 8, 60, &id(2), &id(12), &id(13)),
        Err(EscrowError::InvalidState)
    );
    assert_eq!(registry.lookup(&id(50)), Some(record(1, 10, 11, 50, 7)));
}

#[test]
fn destroy_removes_one_record_and_names_the_maker() {
    let mut registry = Registry::new();
    let custodian = Custodian::new();
    assert!(registry.create(&id(50), 255, 7, 50, &id(1), &id(10), &id(11)).is_ok());
    assert!(registry.create(&id(51), 255, 8, 60, &id(2), &id(10), &id(11)).is_ok());
    assert!(registry.create(&id(52), 255, 9, 70, &id(3), &id(10), &id(11)).is_ok());
    assert_eq!(registry.destroy(&id(51), &custodian), Ok(id(2)));
    assert_eq!(registry.lookup(&id(51)), None);
    assert_eq!(registry.lookup(&id(50)), Some(record(1, 10, 11, 50, 7)));
    assert_eq!(registry.lookup(&id(52)), Some(record(3, 10, 11, 70, 9)));
    assert_eq!(registry.destroy(&id(51), &custodian), Err(EscrowError::InvalidState));
}

#[test]
fn destroy_while_the_vault_holds_a_balance_is_invalid_state() {
    let mut ledger = Ledger::new();
    let mut registry = Registry::new();
    let mut custodian = Custodian::new();
    assert!(ledger.issue(&id(1), &id(10), 100));
    let terms = registry
        .create(&id(50), 255, 7, 50, &id(1), &id(10), &id(11))
        .expect("a record");
    let vault = custodian.open(&mut ledger, &id(50), &terms, 100).expect("a vault");
    assert_eq!(registry.destroy(&id(50), &custodian), Err(EscrowError::InvalidState));
    assert_eq!(registry.lookup(&id(50)), Some(terms));
    let closure = custodian
        .release(&mut ledger, &vault, &id(1), &terms, Some(id(50)))
        .expect("a release");
    assert_eq!(closure.released, 100);
    assert_eq!(registry.destroy(&id(50), &custodian), Ok(id(1)));
    assert_eq!(registry.lookup(&id(50)), None);
}

#[test]
fn open_moves_the_deposit_into_the_vault() {
    let mut ledger = Ledger::new();
    let mut custodian = Custodian::new();
    assert!(ledger.issue(&id(1), &id(10), 100));
    let terms = record(1, 10, 11, 50, 7);
    let vault = custodian.open(&mut ledger, &id(50), &terms, 60);
    assert_eq!(vault, Ok(Vault { authority: id(50), asset: id(10) }));
    assert_eq!(custodian.balance_of(&id(50), &id(10)), 60);
    assert_eq!(custodian.custody_of(&id(10)), 60);
    assert_eq!(ledger.balance_of(&id(1), &id(10)), 40);
    assert_eq!(ledger.supply_of(&id(10)), 40);
}

#[test]
fn vault_open_without_funds_is_insufficient_funds() {
    let mut ledger = Ledger::new();
    let mut custodian = Custodian::new();
    assert!(ledger.issue(&id(1), &id(10), 59));
    let terms = record(1, 10, 11, 50, 7);
    assert_eq!(
        custodian.open(&mut ledger, &id(50), &terms, 60),
        Err(EscrowError::InsufficientFunds)
    );
    assert_eq!(custodian.balance_of(&id(50), &id(10)), 0);
    assert_eq!(ledger.balance_of(&id(1), &id(10)), 59);
}

#[test]
fn open_over_a_vault_that_holds_is_invalid_state() {
    let mut ledger = Ledger::new();
    let mut custodian = Custodian::new();
    assert!(ledger.issue(&id(1), &id(10), 100));
    let terms = record(1, 10, 11, 50, 7);
    assert!(custodian.open(&mut ledger, &id(50), &terms, 60).is_ok());
    assert_eq!(
        custodian.open(&mut ledger, &id(50), &terms, 10),
        Err(EscrowError::InvalidState)
    );
    assert_eq!(custodian.balance_of(&id(50), &id(10)), 60);
    assert_eq!(ledger.balance_of(&id(1), &id(10)), 40);
}

#[test]
fn release_needs_the_authority_of_this_very_vault() {
    let mut ledger = Ledger::new();
    let mut custodian = Custodian::new();
    assert!(ledger.issue(&id(1), &id(10), 100));
    assert!(ledger.issue(&id(2), &id(10), 100));
    let first = record(1, 10, 11, 50, 7);
    let second = record(2, 10, 11, 50, 7);
    let vault = custodian.open(&mut ledger, &id(50), &first, 60).expect("a vault");
    assert!(custodian.open(&mut ledger, &id(51), &second, 70).is_ok());
    assert_eq!(
        custodian.release(&mut ledger, &vault, &id(2), &second, Some(id(51))),
        Err(EscrowError::Unauthorized)
    );
    assert_eq!(
        custodian.release(&mut ledger, &vault, &id(2), &first, None),
        Err(EscrowError::Unauthorized)
    );
    assert_eq!(custodian.balance_of(&id(50), &id(10)), 60);
    assert_eq!(custodian.balance_of(&id(51), &id(10)), 70);
    assert_eq!(ledger.balance_of(&id(2), &id(10)), 30);
}

#[test]
fn release_drains_the_vault_to_the_destination() {
    let mut ledger = Ledger::new();
    let mut custodian = Custodian::new();
    assert!(ledger.issue(&id(1), &id(10), 100));
    let terms = record(1, 10, 11, 50, 7);
    let vault = custodian.open(&mut ledger, &id(50), &terms, 60).expect("a vault");
    let closure = custodian
        .release(&mut ledger, &vault, &id(3), &terms, Some(id(50)))
        .expect("a release");
    assert_eq!(closure.released, 60);
    assert_eq!(closure.fee_recipient, id(1));
    assert_eq!(custodian.balance_of(&id(50), &id(10)), 0);
    assert_eq!(custodian.custody_of(&id(10)), 0);
    assert_eq!(ledger.balance_of(&id(3), &id(10)), 60);
    assert_eq!(ledger.balance_of(&id(1), &id(10)), 40);
    assert_eq!(
        custodian.release(&mut ledger, &vault, &id(3), &terms, Some(id(50))),
        Err(EscrowError::InvalidState)
    );
}

#[test]
fn authorized_compares_with_the_required_address() {
    assert!(authorized(&Some(id(50)), &id(50)));
    assert!(!authorized(&Some(id(51)), &id(50)));
    assert!(!authorized(&None, &id(50)));
}

#[test]
fn records_compare_by_their_terms() {
    let terms = record(1, 10, 11, 50, 7);
    assert!(terms.same(&record(1, 10, 11, 50, 7)));
    assert!(!terms.same(&record(2, 10, 11, 50, 7)));
    assert!(!terms.same(&record(1, 12, 11, 50, 7)));
    assert!(!terms.same(&record(1, 10, 12, 50, 7)));
    assert!(!terms.same(&record(1, 10, 11, 51, 7)));
    assert!(!terms.same(&record(1, 10, 11, 50, 8)));
    let mut other = record(1, 10, 11, 50, 7);
    other.derivation_proof = 254;
    assert!(!terms.same(&other));
}
