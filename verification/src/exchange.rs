use crate::address::{escrow_address, escrow_address_of, rederive_address, rederived_address};
use crate::error::EscrowError;
use crate::identity::Identity;
use crate::ledger::{after_transfer, Ledger};
use crate::record::{terms, EscrowRecord, RecordView, Registry};
use crate::vault::{authorized, authorizes, solvent, Closure, Custodian, Vault};
use vstd::prelude::*;

verus! {

/// The lifecycle state of the trade at an address.
#[derive(Clone, Copy, Debug, PartialEq, Eq, Structural)]
pub enum TradeState {
    /// Record and vault both exist, and the vault holds the deposit.
    Open,
    /// Neither record nor vault exists.
    Closed,
}

/// The whole state that the three operations work on: the asset ledger, the
/// records of the open trades and their vaults, under one program identity.
///
/// A trade is `OPEN` at an address while a record is there, and `CLOSED`
/// otherwise. The model of the state is given by `program`, `balance`,
/// `vault`, `record_at` and `total`.
pub struct Exchange {
    program: Identity,
    ledger: Ledger,
    registry: Registry,
    custodian: Custodian,
}

impl Exchange {
    /// The identity of the program, under which every address is derived.
    pub closed spec fn program(&self) -> Seq<u8> {
        self.program@
    }

    /// What `holder` owns of `asset` in the asset ledger.
    pub closed spec fn balance(&self, holder: Seq<u8>, asset: Seq<u8>) -> nat {
        self.ledger.balance(holder, asset)
    }

    /// What the vault of the trade at `address` holds of `asset`.
    pub closed spec fn vault(&self, address: Seq<u8>, asset: Seq<u8>) -> nat {
        self.custodian.holding(address, asset)
    }

    /// The record of the trade at `address`, if one is open there.
    pub closed spec fn record_at(&self, address: Seq<u8>) -> Option<RecordView> {
        self.registry.record_at(address)
    }

    /// All there is of `asset`: what the holders own and what the vaults hold.
    pub closed spec fn total(&self, asset: Seq<u8>) -> nat {
        self.ledger.supply(asset) + self.custodian.in_custody(asset)
    }

    /// Whether a trade is `OPEN` at `address`.
    pub open spec fn is_open(&self, address: Seq<u8>) -> bool {
        self.record_at(address) is Some
    }

    /// The lifecycle state of the trade at `address`.
    pub open spec fn state(&self, address: Seq<u8>) -> TradeState {
        if self.is_open(address) {
            TradeState::Open
        } else {
            TradeState::Closed
        }
    }

    /// The invariant of the state: a vault holds an asset exactly where a
    /// record at its address offers that asset, and all there is of any
    /// asset fits in a `u64`.
    pub closed spec fn wf(&self) -> bool {
        &&& self.ledger.wf()
        &&& self.registry.wf()
        &&& self.custodian.wf()
        &&& solvent(&self.ledger, &self.custodian)
        &&& forall|a: Seq<u8>, x: Seq<u8>|
            #![trigger self.custodian.holding(a, x)]
            self.custodian.holding(a, x) > 0 <==> (self.registry.record_at(a) matches Some(record)
                && record.asset_offered == x)
    }

    /// A vault holds something of an asset exactly where the trade at its
    /// address is open and offers that asset: record and vault exist together.
    pub proof fn lemma_vault_iff_record(&self, address: Seq<u8>, asset: Seq<u8>)
        requires
            self.wf(),
        ensures
            self.vault(address, asset) > 0 <==> (self.record_at(address) matches Some(record)
                && record.asset_offered == asset),
            self.total(asset) <= u64::MAX,
    {
        assert(self.ledger.supply(asset) + self.custodian.in_custody(asset) <= u64::MAX);
    }

    /// A state without trades and without assets, under `program`.
    pub fn new(program: Identity) -> (x: Exchange)
        ensures
            x.wf(),
            x.program() == program@,
            forall|a: Seq<u8>| #[trigger] x.record_at(a) is None,
            forall|a: Seq<u8>, asset: Seq<u8>| #[trigger] x.vault(a, asset) == 0,
            forall|h: Seq<u8>, asset: Seq<u8>| #[trigger] x.balance(h, asset) == 0,
            forall|asset: Seq<u8>| #[trigger] x.total(asset) == 0,
    {
        let x = Exchange {
            program,
            ledger: Ledger::new(),
            registry: Registry::new(),
            custodian: Custodian::new(),
        };
        proof {
            assert forall|asset: Seq<u8>| #[trigger] x.total(asset) == 0 by {
                assert(x.ledger.supply(asset) == 0);
                assert(x.custodian.in_custody(asset) == 0);
            }
            assert forall|a: Seq<u8>, s: Seq<u8>|
                #![trigger x.custodian.holding(a, s)]
                x.custodian.holding(a, s) > 0 <==> (x.registry.record_at(a) matches Some(record)
                    && record.asset_offered == s) by {
                assert(x.registry.record_at(a) is None);
            }
            assert forall|asset: Seq<u8>| #[trigger]
                x.ledger.supply(asset) + x.custodian.in_custody(asset) <= u64::MAX by {
                assert(x.ledger.supply(asset) == 0);
                assert(x.custodian.in_custody(asset) == 0);
            }
        }
        x
    }

    /// The identity of the program.
    pub fn program_id(&self) -> (id: Identity)
        ensures
            id@ == self.program(),
    {
        self.program
    }

    /// What `holder` owns of `asset`.
    pub fn balance_of(&self, holder: &Identity, asset: &Identity) -> (amount: u64)
        requires
            self.wf(),
        ensures
            amount == self.balance(holder@, asset@),
    {
        self.ledger.balance_of(holder, asset)
    }

    /// What the vault of the trade at `address` holds of `asset`.
    pub fn vault_balance(&self, address: &Identity, asset: &Identity) -> (amount: u64)
        requires
            self.wf(),
        ensures
            amount == self.vault(address@, asset@),
    {
        self.custodian.balance_of(address, asset)
    }

    /// All there is of `asset`, with holders and in vaults.
    pub fn total_of(&self, asset: &Identity) -> (amount: u64)
        requires
            self.wf(),
        ensures
            amount == self.total(asset@),
    {
        let owned = self.ledger.supply_of(asset);
        let held = self.custodian.custody_of(asset);
        proof {
            assert(self.ledger.supply(asset@) + self.custodian.in_custody(asset@) <= u64::MAX);
        }
        owned + held
    }

    /// The lifecycle state of the trade at `address`.
    pub fn state_of(&self, address: &Identity) -> (state: TradeState)
        requires
            self.wf(),
        ensures
            state == self.state(address@),
    {
        match self.registry.lookup(address) {
            Some(_) => TradeState::Open,
            None => TradeState::Closed,
        }
    }

    /// Reads the record of the trade at `address`, if one is open there.
    pub fn observe(&self, address: &Identity) -> (r: Option<EscrowRecord>)
        requires
            self.wf(),
        ensures
            match r {
                Some(record) => self.record_at(address@) == Some(record@),
                None => self.record_at(address@) is None,
            },
    {
        self.registry.lookup(address)
    }

    /// Brings `amount` new units of `asset` into being, owned by `holder`.
    /// Refused, with nothing changed, exactly where all there is of the
    /// asset would no longer fit in a `u64`.
    pub fn fund(&mut self, holder: &Identity, asset: &Identity, amount: u64) -> (done: bool)
        requires
            old(self).wf(),
        ensures
            final(self).wf(),
            done == (old(self).total(asset@) + amount <= u64::MAX),
            !done ==> *final(self) == *old(self),
            done ==> funded(*old(self), *final(self), holder@, asset@, amount),
    {
        let owned = self.ledger.supply_of(asset);
        let held = self.custodian.custody_of(asset);
        proof {
            assert(self.ledger.supply(asset@) + self.custodian.in_custody(asset@) <= u64::MAX);
        }
        if amount > u64::MAX - owned - held {
            return false;
        }
        self.ledger.credit(holder, asset, amount);
        proof {
            assert forall|x: Seq<u8>| #[trigger]
                self.ledger.supply(x) + self.custodian.in_custody(x) <= u64::MAX by {
                assert(old(self).ledger.supply(x) + old(self).custodian.in_custody(x) <= u64::MAX);
            }
            assert forall|x: Seq<u8>| #[trigger]
                self.total(x) == old(self).total(x) + (if x == asset@ {
                    amount as nat
                } else {
                    0
                }) by {
                assert(self.ledger.supply(x) == old(self).ledger.supply(x) + (if x == asset@ {
                    amount as nat
                } else {
                    0
                }));
            }
        }
        true
    }
}

/// What `fund` does where it is not refused.
pub open spec fn funded(pre: Exchange, post: Exchange, holder: Seq<u8>, asset: Seq<u8>, amount: u64) -> bool {
    &&& post.program() == pre.program()
    &&& forall|a: Seq<u8>| #[trigger] post.record_at(a) == pre.record_at(a)
    &&& forall|a: Seq<u8>, x: Seq<u8>| #[trigger] post.vault(a, x) == pre.vault(a, x)
    &&& forall|h: Seq<u8>, x: Seq<u8>| #[trigger]
        post.balance(h, x) == pre.balance(h, x) + (if h == holder && x == asset {
            amount as nat
        } else {
            0
        })
    &&& forall|x: Seq<u8>| #[trigger]
        post.total(x) == pre.total(x) + (if x == asset {
            amount as nat
        } else {
            0
        })
}

/// The result of an operation without what it hands back on success.
pub open spec fn outcome<T>(r: Result<T, EscrowError>) -> Result<(), EscrowError> {
    match r {
        Ok(_) => Ok(()),
        Err(e) => Err(e),
    }
}

/// The mathematical value of a derived slot: an address and its proof.
pub open spec fn slot_view(slot: Option<(Identity, u8)>) -> Option<(Seq<u8>, u8)> {
    match slot {
        Some((address, proof)) => Some((address@, proof)),
        None => None,
    }
}

/// The mathematical value of a re-derived authority.
pub open spec fn authority_view(authority: Option<Identity>) -> Option<Seq<u8>> {
    match authority {
        Some(address) => Some(address@),
        None => None,
    }
}

/// Whether opening a trade succeeds, and why not: without a derived slot it
/// is `Unauthorized`; at an address where a trade is open, `InvalidState`;
/// where the maker owns less than the deposit, `InsufficientFunds`.
pub open spec fn make_verdict(
    x: Exchange,
    slot: Option<(Seq<u8>, u8)>,
    maker: Seq<u8>,
    asset_offered: Seq<u8>,
    deposit: u64,
) -> Result<(), EscrowError> {
    match slot {
        None => Err(EscrowError::Unauthorized),
        Some((address, proof)) => if x.is_open(address) {
            Err(EscrowError::InvalidState)
        } else if x.balance(maker, asset_offered) < deposit {
            Err(EscrowError::InsufficientFunds)
        } else {
            Ok(())
        },
    }
}

/// What opening a trade does: the record appears at `address`, the deposit
/// leaves the maker and is all that the new vault holds, and nothing else
/// changes.
pub open spec fn made(pre: Exchange, post: Exchange, address: Seq<u8>, record: RecordView, deposit: u64) -> bool {
    &&& post.program() == pre.program()
    &&& forall|a: Seq<u8>| #[trigger]
        post.record_at(a) == if a == address {
            Some(record)
        } else {
            pre.record_at(a)
        }
    &&& forall|a: Seq<u8>, x: Seq<u8>| #[trigger]
        post.vault(a, x) == if a == address {
            if x == record.asset_offered {
                deposit as nat
            } else {
                0
            }
        } else {
            pre.vault(a, x)
        }
    &&& forall|h: Seq<u8>, x: Seq<u8>| #[trigger]
        post.balance(h, x) == pre.balance(h, x) - (if h == record.owner_identity && x
            == record.asset_offered {
            deposit as nat
        } else {
            0
        })
    &&& forall|x: Seq<u8>| #[trigger] post.total(x) == pre.total(x)
}

/// Whether a cancellation by `caller`, who saw `observed` at `address` and
/// re-derived `authority` from it, succeeds, and why not: where that record
/// is no longer there, `AlreadyClosed`; where the caller is not its maker, or
/// the re-derived authority is not the address, `Unauthorized`.
pub open spec fn refund_verdict(
    x: Exchange,
    caller: Seq<u8>,
    address: Seq<u8>,
    observed: RecordView,
    authority: Option<Seq<u8>>,
) -> Result<(), EscrowError> {
    if x.record_at(address) != Some(observed) {
        Err(EscrowError::AlreadyClosed)
    } else if caller != observed.owner_identity {
        Err(EscrowError::Unauthorized)
    } else if authority != Some(address) {
        Err(EscrowError::Unauthorized)
    } else {
        Ok(())
    }
}

/// What closing the trade at `address` does to records and vaults: both are
/// gone, and nothing else of them changes.
pub open spec fn closed(pre: Exchange, post: Exchange, address: Seq<u8>) -> bool {
    &&& post.program() == pre.program()
    &&& forall|a: Seq<u8>| #[trigger]
        post.record_at(a) == if a == address {
            None
        } else {
            pre.record_at(a)
        }
    &&& forall|a: Seq<u8>, x: Seq<u8>| #[trigger]
        post.vault(a, x) == if a == address {
            0
        } else {
            pre.vault(a, x)
        }
    &&& forall|x: Seq<u8>| #[trigger] post.total(x) == pre.total(x)
}

/// What a cancellation does: the trade is closed and the whole deposit is
/// back with the maker.
pub open spec fn refunded(pre: Exchange, post: Exchange, address: Seq<u8>, record: RecordView) -> bool {
    &&& closed(pre, post, address)
    &&& forall|h: Seq<u8>, x: Seq<u8>| #[trigger]
        post.balance(h, x) == pre.balance(h, x) + (if h == record.owner_identity && x
            == record.asset_offered {
            pre.vault(address, record.asset_offered)
        } else {
            0
        })
}

/// Whether a fulfillment by `taker`, who saw `observed` at `address` and
/// re-derived `authority` from it, succeeds, and why not: where that record
/// is no longer there, `AlreadyClosed`; where the re-derived authority is not
/// the address, `Unauthorized`; where the taker owns less of the requested
/// asset than the record asks, `InsufficientFunds`.
pub open spec fn take_verdict(
    x: Exchange,
    taker: Seq<u8>,
    address: Seq<u8>,
    observed: RecordView,
    authority: Option<Seq<u8>>,
) -> Result<(), EscrowError> {
    if x.record_at(address) != Some(observed) {
        Err(EscrowError::AlreadyClosed)
    } else if authority != Some(address) {
        Err(EscrowError::Unauthorized)
    } else if x.balance(taker, observed.asset_requested) < observed.amount_requested {
        Err(EscrowError::InsufficientFunds)
    } else {
        Ok(())
    }
}

/// What a fulfillment does: the taker has paid the maker the requested
/// amount, the whole deposit is with the taker, and the trade is closed.
pub open spec fn taken(
    pre: Exchange,
    post: Exchange,
    taker: Seq<u8>,
    address: Seq<u8>,
    record: RecordView,
) -> bool {
    &&& closed(pre, post, address)
    &&& forall|h: Seq<u8>, x: Seq<u8>| #[trigger]
        post.balance(h, x) == after_transfer(
            pre.balance(h, x),
            h,
            x,
            record.asset_requested,
            taker,
            record.owner_identity,
            record.amount_requested,
        ) + (if h == taker && x == record.asset_offered {
            pre.vault(address, record.asset_offered)
        } else {
            0
        })
}

/// Opens a trade at a slot that was derived beforehand: creates the record
/// and the vault and moves the deposit into the vault, all or nothing.
///
/// `slot` is the address and derivation proof derived for `maker` and
/// `seed`, or nothing where the derivation gave none. The caller answers for
/// it: a vault opened at an address that re-deriving from the record does not
/// give can be drained by nobody, since `refund` and `take` re-derive.
pub fn make_at(
    x: &mut Exchange,
    slot: Option<(Identity, u8)>,
    maker: &Identity,
    asset_offered: &Identity,
    asset_requested: &Identity,
    seed: u64,
    deposit: u64,
    receive: u64,
) -> (r: Result<(), EscrowError>)
    requires
        old(x).wf(),
        deposit > 0,
    ensures
        final(x).wf(),
        r == make_verdict(*old(x), slot_view(slot), maker@, asset_offered@, deposit),
        r is Err ==> *final(x) == *old(x),
        r is Ok ==> (slot matches Some((address, proof)) && made(
            *old(x),
            *final(x),
            address@,
            terms(maker@, asset_offered@, asset_requested@, receive, seed, proof),
            deposit,
        )),
{
    let (address, proof) = match slot {
        Some(found) => found,
        None => {
            return Err(EscrowError::Unauthorized);
        },
    };
    if x.registry.lookup(&address).is_some() {
        return Err(EscrowError::InvalidState);
    }
    if x.ledger.balance_of(maker, asset_offered) < deposit {
        return Err(EscrowError::InsufficientFunds);
    }
    proof {
        assert forall|s: Seq<u8>| #[trigger] x.custodian.holding(address@, s) == 0 by {}
    }
    let record = match x.registry.create(
        &address,
        proof,
        seed,
        receive,
        maker,
        asset_offered,
        asset_requested,
    ) {
        Ok(record) => record,
        // Not taken: the address was just found empty.
        Err(e) => {
            return Err(e);
        },
    };
    match x.custodian.open(&mut x.ledger, &address, &record, deposit) {
        Ok(_) => {
            proof {
                assert forall|s: Seq<u8>| #[trigger] x.total(s) == old(x).total(s) by {
                    assert(x.ledger.supply(s) + x.custodian.in_custody(s) == old(x).ledger.supply(s)
                        + old(x).custodian.in_custody(s));
                }
                assert forall|a: Seq<u8>, s: Seq<u8>| #[trigger]
                    x.vault(a, s) == if a == address@ {
                        if s == record@.asset_offered {
                            deposit as nat
                        } else {
                            0
                        }
                    } else {
                        old(x).vault(a, s)
                    } by {
                    assert(x.custodian.holding(a, s) == old(x).custodian.holding(a, s) + (if a
                        == address@ && s == record@.asset_offered {
                        deposit as nat
                    } else {
                        0
                    }));
                    if a == address@ {
                        assert(old(x).custodian.holding(address@, s) == 0);
                    }
                }
                assert forall|a: Seq<u8>, s: Seq<u8>|
                    #![trigger x.custodian.holding(a, s)]
                    x.custodian.holding(a, s) > 0 <==> (x.registry.record_at(a) matches Some(rec)
                        && rec.asset_offered == s) by {
                    assert(x.vault(a, s) == x.custodian.holding(a, s));
                    assert(old(x).custodian.holding(a, s) > 0 <==> (old(x).registry.record_at(
                        a,
                    ) matches Some(rec) && rec.asset_offered == s));
                }
            }
            Ok(())
        },
        // Not taken: no vault is at an address without a record, and the
        // maker's balance was just found sufficient.
        Err(e) => {
            assert(old(x).custodian.holding(address@, record@.asset_offered) == 0);
            Err(e)
        },
    }
}

/// Opens a trade: derives the address of the record from the maker and the
/// seed, creates the record and its vault there, and moves `deposit` of the
/// offered asset from the maker into the vault, all or nothing.
///
/// Afterwards the vault holds exactly `deposit`, the maker owns exactly
/// `deposit` less of the offered asset, and the trade is open, asking for
/// `receive` of the requested asset. The address that was derived is again
/// the one that re-deriving from the record gives.
pub fn make(
    x: &mut Exchange,
    maker: &Identity,
    asset_offered: &Identity,
    asset_requested: &Identity,
    seed: u64,
    deposit: u64,
    receive: u64,
) -> (r: Result<(), EscrowError>)
    requires
        old(x).wf(),
        deposit > 0,
    ensures
        final(x).wf(),
        r == make_verdict(
            *old(x),
            escrow_address_of(old(x).program(), maker@, seed),
            maker@,
            asset_offered@,
            deposit,
        ),
        r is Err ==> *final(x) == *old(x),
        r is Ok ==> (escrow_address_of(old(x).program(), maker@, seed) matches Some(
            (address, proof),
        ) && rederived_address(old(x).program(), maker@, seed, proof) == Some(address) && made(
            *old(x),
            *final(x),
            address,
            terms(maker@, asset_offered@, asset_requested@, receive, seed, proof),
            deposit,
        )),
{
    let slot = escrow_address(&x.program, maker, seed);
    make_at(x, slot, maker, asset_offered, asset_requested, seed, deposit, receive)
}

/// The verdict on a cancellation by a caller who names only the address:
/// `InvalidState` where no trade is open there; otherwise the verdict on a
/// cancellation of the record that is there, under the authority re-derived
/// from it.
pub open spec fn refund_verdict_at(x: Exchange, caller: Seq<u8>, address: Seq<u8>) -> Result<
    (),
    EscrowError,
> {
    match x.record_at(address) {
        None => Err(EscrowError::InvalidState),
        Some(record) => refund_verdict(
            x,
            caller,
            address,
            record,
            rederived_address(
                x.program(),
                record.owner_identity,
                record.nonce,
                record.derivation_proof,
            ),
        ),
    }
}

/// The verdict on a fulfillment by a taker who names only the address:
/// `InvalidState` where no trade is open there; otherwise the verdict on a
/// fulfillment of the record that is there, under the authority re-derived
/// from it.
pub open spec fn take_verdict_at(x: Exchange, taker: Seq<u8>, address: Seq<u8>) -> Result<
    (),
    EscrowError,
> {
    match x.record_at(address) {
        None => Err(EscrowError::InvalidState),
        Some(record) => take_verdict(
            x,
            taker,
            address,
            record,
            rederived_address(
                x.program(),
                record.owner_identity,
                record.nonce,
                record.derivation_proof,
            ),
        ),
    }
}

/// Releases the vault at `address` to `destination` and destroys the record,
/// for a trade whose record `observed` is known to be there.
fn settle(
    x: &mut Exchange,
    address: &Identity,
    destination: &Identity,
    observed: &EscrowRecord,
    authority: Option<Identity>,
) -> (r: Result<Closure, EscrowError>)
    requires
        old(x).ledger.wf(),
        old(x).registry.wf(),
        old(x).custodian.wf(),
        solvent(&old(x).ledger, &old(x).custodian),
        old(x).registry.record_at(address@) == Some(observed@),
        old(x).custodian.holding(address@, observed@.asset_offered) > 0,
        forall|s: Seq<u8>|
            s != observed@.asset_offered ==> #[trigger] old(x).custodian.holding(address@, s) == 0,
        authorizes(authority, address@),
    ensures
        final(x).ledger.wf(),
        final(x).registry.wf(),
        final(x).custodian.wf(),
        solvent(&final(x).ledger, &final(x).custodian),
        closed(*old(x), *final(x), address@),
        r matches Ok(closure) && closure.fee_recipient@ == observed@.owner_identity
            && closure.released == old(x).vault(address@, observed@.asset_offered),
        forall|a: Seq<u8>, s: Seq<u8>| #[trigger]
            final(x).custodian.holding(a, s) == final(x).vault(a, s),
        forall|h: Seq<u8>, s: Seq<u8>| #[trigger]
            final(x).balance(h, s) == old(x).balance(h, s) + (if h == destination@ && s
                == observed@.asset_offered {
                old(x).vault(address@, observed@.asset_offered)
            } else {
                0
            }),
{
    let vault = Vault { authority: *address, asset: observed.asset_offered };
    let released = x.custodian.release(&mut x.ledger, &vault, destination, observed, authority);
    let destroyed = x.registry.destroy(address, &x.custodian);
    proof {
        assert(x.custodian.holding(address@, observed@.asset_offered) == 0);
        assert forall|s: Seq<u8>| #[trigger] x.total(s) == old(x).total(s) by {
            assert(x.ledger.supply(s) + x.custodian.in_custody(s) == old(x).ledger.supply(s) + old(
                x,
            ).custodian.in_custody(s));
        }
        assert forall|a: Seq<u8>, s: Seq<u8>| #[trigger]
            x.vault(a, s) == if a == address@ {
                0
            } else {
                old(x).vault(a, s)
            } by {
            assert(x.custodian.holding(a, s) == if a == vault.authority@ && s == vault.asset@ {
                0
            } else {
                old(x).custodian.holding(a, s)
            });
            if a == address@ && s != observed@.asset_offered {
                assert(old(x).custodian.holding(address@, s) == 0);
            }
        }
    }
    match destroyed {
        Ok(_) => released,
        // Not taken: the vault was just drained.
        Err(e) => Err(e),
    }
}

/// Cancels the trade whose record the caller saw at `address`, under the
/// authority that the caller re-derived from that record: the vault's whole
/// balance goes back to the maker, and vault and record are destroyed
/// together. Only the maker may cancel.
///
/// This is the conditional update on which racing transitions meet: it goes
/// ahead only while the record that was seen is still the one at the address.
/// On any refusal nothing has changed.
pub fn refund_observed(
    x: &mut Exchange,
    caller: &Identity,
    address: &Identity,
    observed: &EscrowRecord,
    authority: Option<Identity>,
) -> (r: Result<Closure, EscrowError>)
    requires
        old(x).wf(),
    ensures
        final(x).wf(),
        outcome(r) == refund_verdict(
            *old(x),
            caller@,
            address@,
            observed@,
            authority_view(authority),
        ),
        r is Err ==> *final(x) == *old(x),
        r matches Ok(closure) ==> {
            &&& refunded(*old(x), *final(x), address@, observed@)
            &&& closure.fee_recipient@ == observed@.owner_identity
            &&& closure.released == old(x).vault(address@, observed@.asset_offered)
        },
{
    let current = x.registry.lookup(address);
    let unchanged = match current {
        Some(record) => record.same(observed),
        None => false,
    };
    if !unchanged {
        return Err(EscrowError::AlreadyClosed);
    }
    if !caller.same(&observed.owner_identity) {
        return Err(EscrowError::Unauthorized);
    }
    if !authorized(&authority, address) {
        return Err(EscrowError::Unauthorized);
    }
    proof {
        assert(x.custodian.holding(address@, observed@.asset_offered) > 0);
        assert forall|s: Seq<u8>| s != observed@.asset_offered implies #[trigger]
            x.custodian.holding(address@, s) == 0 by {}
    }
    let settled = settle(x, address, &observed.owner_identity, observed, authority);
    proof {
        lemma_closed_keeps_binding(*old(x), *x, address@);
    }
    settled
}

/// Closing a trade keeps records and vaults together.
proof fn lemma_closed_keeps_binding(pre: Exchange, post: Exchange, address: Seq<u8>)
    requires
        pre.wf(),
        closed(pre, post, address),
        forall|a: Seq<u8>, s: Seq<u8>| #[trigger] post.custodian.holding(a, s) == post.vault(a, s),
    ensures
        forall|a: Seq<u8>, s: Seq<u8>|
            #![trigger post.custodian.holding(a, s)]
            post.custodian.holding(a, s) > 0 <==> (post.registry.record_at(a) matches Some(rec)
                && rec.asset_offered == s),
{
    assert forall|a: Seq<u8>, s: Seq<u8>|
        #![trigger post.custodian.holding(a, s)]
        post.custodian.holding(a, s) > 0 <==> (post.registry.record_at(a) matches Some(rec)
            && rec.asset_offered == s) by {
        assert(post.custodian.holding(a, s) == post.vault(a, s));
        assert(post.record_at(a) == if a == address {
            None
        } else {
            pre.record_at(a)
        });
        assert(pre.custodian.holding(a, s) > 0 <==> (pre.registry.record_at(a) matches Some(rec)
            && rec.asset_offered == s));
    }
}

/// Cancels the trade at `address`: the vault's whole balance goes back to
/// the maker, and vault and record are destroyed together. Only the maker
/// may cancel; for anyone else the trade stays open, unchanged.
///
/// On any refusal nothing has changed.
pub fn refund(x: &mut Exchange, caller: &Identity, address: &Identity) -> (r: Result<
    Closure,
    EscrowError,
>)
    requires
        old(x).wf(),
    ensures
        final(x).wf(),
        outcome(r) == refund_verdict_at(*old(x), caller@, address@),
        r is Err ==> *final(x) == *old(x),
        r matches Ok(closure) ==> {
            &&& old(x).record_at(address@) matches Some(record)
            &&& refunded(*old(x), *final(x), address@, record)
            &&& closure.fee_recipient@ == record.owner_identity
            &&& closure.released == old(x).vault(address@, record.asset_offered)
        },
{
    match x.registry.lookup(address) {
        None => Err(EscrowError::InvalidState),
        Some(record) => {
            let authority = rederive_address(
                &x.program,
                &record.owner_identity,
                record.nonce,
                record.derivation_proof,
            );
            refund_observed(x, caller, address, &record, authority)
        },
    }
}

/// Fulfills the trade whose record the taker saw at `address`, under the
/// authority that the taker re-derived from that record: the taker pays the
/// maker the requested amount, the vault's whole balance goes to the taker,
/// and vault and record are destroyed together.
///
/// This is the conditional update on which racing transitions meet: it goes
/// ahead only while the record that was seen is still the one at the address.
/// On any refusal nothing has changed.
pub fn take_observed(
    x: &mut Exchange,
    taker: &Identity,
    address: &Identity,
    observed: &EscrowRecord,
    authority: Option<Identity>,
) -> (r: Result<Closure, EscrowError>)
    requires
        old(x).wf(),
    ensures
        final(x).wf(),
        outcome(r) == take_verdict(
            *old(x),
            taker@,
            address@,
            observed@,
            authority_view(authority),
        ),
        r is Err ==> *final(x) == *old(x),
        r matches Ok(closure) ==> {
            &&& taken(*old(x), *final(x), taker@, address@, observed@)
            &&& closure.fee_recipient@ == observed@.owner_identity
            &&& closure.released == old(x).vault(address@, observed@.asset_offered)
        },
{
    let current = x.registry.lookup(address);
    let unchanged = match current {
        Some(record) => record.same(observed),
        None => false,
    };
    if !unchanged {
        return Err(EscrowError::AlreadyClosed);
    }
    if !authorized(&authority, address) {
        return Err(EscrowError::Unauthorized);
    }
    let paid = x.ledger.transfer(
        &observed.asset_requested,
        taker,
        &observed.owner_identity,
        observed.amount_requested,
    );
    if paid.is_err() {
        return Err(EscrowError::InsufficientFunds);
    }
    proof {
        assert(x.custodian.holding(address@, observed@.asset_offered) > 0);
        assert forall|s: Seq<u8>| s != observed@.asset_offered implies #[trigger]
            x.custodian.holding(address@, s) == 0 by {}
        assert forall|s: Seq<u8>| #[trigger]
            x.ledger.supply(s) + x.custodian.in_custody(s) <= u64::MAX by {
            assert(old(x).ledger.supply(s) + old(x).custodian.in_custody(s) <= u64::MAX);
        }
    }
    let ghost paid_state = *x;
    let settled = settle(x, address, taker, observed, authority);
    proof {
        assert forall|s: Seq<u8>| #[trigger] x.total(s) == old(x).total(s) by {
            assert(x.total(s) == paid_state.total(s));
            assert(paid_state.ledger.supply(s) == old(x).ledger.supply(s));
        }
        assert(closed(*old(x), *x, address@));
        lemma_closed_keeps_binding(*old(x), *x, address@);
    }
    settled
}

/// Fulfills the trade at `address`: the taker pays the maker the requested
/// amount, the vault's whole balance goes to the taker, and vault and record
/// are destroyed together. Either all of this happens or nothing does.
pub fn take(x: &mut Exchange, taker: &Identity, address: &Identity) -> (r: Result<
    Closure,
    EscrowError,
>)
    requires
        old(x).wf(),
    ensures
        final(x).wf(),
        outcome(r) == take_verdict_at(*old(x), taker@, address@),
        r is Err ==> *final(x) == *old(x),
        r matches Ok(closure) ==> {
            &&& old(x).record_at(address@) matches Some(record)
            &&& taken(*old(x), *final(x), taker@, address@, record)
            &&& closure.fee_recipient@ == record.owner_identity
            &&& closure.released == old(x).vault(address@, record.asset_offered)
        },
{
    match x.registry.lookup(address) {
        None => Err(EscrowError::InvalidState),
        Some(record) => {
            let authority = rederive_address(
                &x.program,
                &record.owner_identity,
                record.nonce,
                record.derivation_proof,
            );
            take_observed(x, taker, address, &record, authority)
        },
    }
}

} // verus!
