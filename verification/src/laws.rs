use crate::address::rederived_address;
use crate::error::EscrowError;
use crate::exchange::{
    closed, made, make_verdict, refund_verdict, refund_verdict_at, refunded, take_verdict, take_verdict_at, taken,
    Exchange,
};
use crate::record::RecordView;
use vstd::prelude::*;

verus! {

/// One of the two transitions that take a trade out of `OPEN`.
pub enum Transition {
    /// A cancellation, by `caller`.
    Cancel { caller: Seq<u8> },
    /// A fulfillment, by `taker`.
    Fulfill { taker: Seq<u8> },
}

/// The verdict on a transition whose author saw `observed` at `address` and
/// re-derived `authority` from it.
pub open spec fn verdict(
    x: Exchange,
    transition: Transition,
    address: Seq<u8>,
    observed: RecordView,
    authority: Option<Seq<u8>>,
) -> Result<(), EscrowError> {
    match transition {
        Transition::Cancel { caller } => refund_verdict(x, caller, address, observed, authority),
        Transition::Fulfill { taker } => take_verdict(x, taker, address, observed, authority),
    }
}

/// What a transition does where it succeeds.
pub open spec fn applied(
    pre: Exchange,
    post: Exchange,
    transition: Transition,
    address: Seq<u8>,
    observed: RecordView,
) -> bool {
    match transition {
        Transition::Cancel { caller } => refunded(pre, post, address, observed),
        Transition::Fulfill { taker } => taken(pre, post, taker, address, observed),
    }
}

/// Opening a trade with a deposit that the maker owns, at an address where
/// no trade is open, is not refused; and once it is done the vault holds
/// exactly the deposit, the maker owns exactly the deposit less of the
/// offered asset, and the record is there, open, with the terms supplied.
pub proof fn law_open_locks_deposit(
    before: Exchange,
    after: Exchange,
    address: Seq<u8>,
    record: RecordView,
    deposit: u64,
)
    requires
        !before.is_open(address),
        before.balance(record.owner_identity, record.asset_offered) >= deposit,
        made(before, after, address, record, deposit),
    ensures
        make_verdict(
            before,
            Some((address, record.derivation_proof)),
            record.owner_identity,
            record.asset_offered,
            deposit,
        ) == Ok::<(), EscrowError>(()),
        after.vault(address, record.asset_offered) == deposit,
        after.balance(record.owner_identity, record.asset_offered) == before.balance(
            record.owner_identity,
            record.asset_offered,
        ) - deposit,
        after.is_open(address),
        after.record_at(address) == Some(record),
        forall|x: Seq<u8>| #[trigger] after.total(x) == before.total(x),
{
    assert(after.record_at(address) == Some(record));
}

/// Nobody but the maker can cancel an open trade: every other caller is
/// refused with `Unauthorized`, whatever authority is presented.
pub proof fn law_only_maker_cancels(
    x: Exchange,
    caller: Seq<u8>,
    address: Seq<u8>,
    record: RecordView,
    authority: Option<Seq<u8>>,
)
    requires
        x.record_at(address) == Some(record),
        caller != record.owner_identity,
    ensures
        refund_verdict_at(x, caller, address) == Err::<(), EscrowError>(EscrowError::Unauthorized),
        refund_verdict(x, caller, address, record, authority) == Err::<(), EscrowError>(
            EscrowError::Unauthorized,
        ),
{
}

/// A trade that was opened and then cancelled by its maker leaves every
/// balance as it was before the trade was opened, the maker's balance of the
/// offered asset among them; and the maker's cancellation of a trade just
/// opened is not refused.
pub proof fn law_cancel_undoes_open(
    before: Exchange,
    opened: Exchange,
    after: Exchange,
    address: Seq<u8>,
    record: RecordView,
    deposit: u64,
)
    requires
        made(before, opened, address, record, deposit),
        rederived_address(
            opened.program(),
            record.owner_identity,
            record.nonce,
            record.derivation_proof,
        ) == Some(address),
        refunded(opened, after, address, record),
    ensures
        refund_verdict_at(opened, record.owner_identity, address) == Ok::<(), EscrowError>(()),
        after.balance(record.owner_identity, record.asset_offered) == before.balance(
            record.owner_identity,
            record.asset_offered,
        ),
        forall|h: Seq<u8>, x: Seq<u8>| #[trigger] after.balance(h, x) == before.balance(h, x),
        forall|x: Seq<u8>| #[trigger] after.total(x) == before.total(x),
        !after.is_open(address),
{
    assert(opened.record_at(address) == Some(record));
    assert(opened.vault(address, record.asset_offered) == deposit);
    assert forall|h: Seq<u8>, x: Seq<u8>| #[trigger] after.balance(h, x) == before.balance(h, x) by {
        assert(opened.balance(h, x) == before.balance(h, x) - (if h == record.owner_identity && x
            == record.asset_offered {
            deposit as nat
        } else {
            0
        }));
    }
    assert forall|x: Seq<u8>| #[trigger] after.total(x) == before.total(x) by {
        assert(opened.total(x) == before.total(x));
    }
    assert(after.record_at(address) is None);
}

/// Once a trade is closed, by cancellation or by fulfillment, every further
/// cancellation or fulfillment of it is refused: with `InvalidState` for who
/// names the address, with `AlreadyClosed` for who had seen the record.
pub proof fn law_closed_is_final(
    before: Exchange,
    after: Exchange,
    address: Seq<u8>,
    anyone: Seq<u8>,
    observed: RecordView,
    authority: Option<Seq<u8>>,
)
    requires
        closed(before, after, address),
    ensures
        !after.is_open(address),
        refund_verdict_at(after, anyone, address) == Err::<(), EscrowError>(
            EscrowError::InvalidState,
        ),
        take_verdict_at(after, anyone, address) == Err::<(), EscrowError>(
            EscrowError::InvalidState,
        ),
        refund_verdict(after, anyone, address, observed, authority) == Err::<(), EscrowError>(
            EscrowError::AlreadyClosed,
        ),
        take_verdict(after, anyone, address, observed, authority) == Err::<(), EscrowError>(
            EscrowError::AlreadyClosed,
        ),
{
    assert(after.record_at(address) is None);
}

/// A fulfillment by a taker other than the maker, of a trade whose two
/// assets differ, moves exactly the requested amount of the requested asset
/// from taker to maker and exactly the deposit of the offered asset to the
/// taker, and leaves neither vault nor record.
pub proof fn law_fulfillment_settles(
    before: Exchange,
    after: Exchange,
    taker: Seq<u8>,
    address: Seq<u8>,
    record: RecordView,
)
    requires
        taken(before, after, taker, address, record),
        taker != record.owner_identity,
        record.asset_offered != record.asset_requested,
    ensures
        after.balance(taker, record.asset_requested) == before.balance(
            taker,
            record.asset_requested,
        ) - record.amount_requested,
        after.balance(record.owner_identity, record.asset_requested) == before.balance(
            record.owner_identity,
            record.asset_requested,
        ) + record.amount_requested,
        after.balance(taker, record.asset_offered) == before.balance(taker, record.asset_offered)
            + before.vault(address, record.asset_offered),
        after.balance(record.owner_identity, record.asset_offered) == before.balance(
            record.owner_identity,
            record.asset_offered,
        ),
        after.vault(address, record.asset_offered) == 0,
        !after.is_open(address),
        forall|x: Seq<u8>| #[trigger] after.total(x) == before.total(x),
{
    assert(after.record_at(address) is None);
    assert(after.vault(address, record.asset_offered) == 0);
}

/// Of two transitions that both saw the same open trade, the one that is
/// applied first wins and the other is refused with `AlreadyClosed`; whoever
/// then names only the address is refused with `InvalidState`. The winner
/// moves assets without making or losing any.
pub proof fn law_race_has_one_winner(
    before: Exchange,
    after: Exchange,
    winner: Transition,
    loser: Transition,
    address: Seq<u8>,
    observed: RecordView,
    winner_authority: Option<Seq<u8>>,
    loser_authority: Option<Seq<u8>>,
)
    requires
        verdict(before, winner, address, observed, winner_authority) is Ok,
        applied(before, after, winner, address, observed),
    ensures
        before.record_at(address) == Some(observed),
        verdict(after, loser, address, observed, loser_authority) == Err::<(), EscrowError>(
            EscrowError::AlreadyClosed,
        ),
        forall|anyone: Seq<u8>| #[trigger]
            refund_verdict_at(after, anyone, address) == Err::<(), EscrowError>(
                EscrowError::InvalidState,
            ),
        forall|anyone: Seq<u8>| #[trigger]
            take_verdict_at(after, anyone, address) == Err::<(), EscrowError>(
                EscrowError::InvalidState,
            ),
        forall|x: Seq<u8>| #[trigger] after.total(x) == before.total(x),
{
    assert(closed(before, after, address));
    assert(after.record_at(address) is None);
}

} // verus!
