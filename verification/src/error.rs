use vstd::prelude::*;

verus! {

/// The four ways an escrow operation can be refused.
///
/// Every refusal is decided before any asset moves, so an operation that
/// returns one of these has changed nothing.
#[derive(Clone, Copy, Debug, PartialEq, Eq, Structural)]
pub enum EscrowError {
    /// The trade is not in the lifecycle state the operation expects.
    InvalidState,
    /// A balance is too low for the transfer the operation needs.
    InsufficientFunds,
    /// The caller is not the maker, or a derived-authority check failed.
    Unauthorized,
    /// Another transition closed the trade first.
    AlreadyClosed,
}

} // verus!
