//! A two-party escrow for swapping one asset against another.
//!
//! A maker locks a deposit of one asset in a vault and names the amount of a
//! second asset wanted in return. Any taker may fulfill the trade, or the
//! maker may cancel it. Record and vault of a trade are created together and
//! destroyed together; every operation happens wholly or not at all.
//!
//! [`exchange`] holds the state and the three operations, [`record`] the
//! escrow record manager, [`vault`] the vault custodian, [`ledger`] the asset
//! ledger, [`address`] the derivation of record addresses, and [`laws`] what
//! holds of the operations taken together.

pub mod address;
pub mod error;
pub mod exchange;
pub mod identity;
pub mod laws;
pub mod ledger;
pub mod record;
pub mod vault;
