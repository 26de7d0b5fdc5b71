use crate::error::EscrowError;
use crate::identity::Identity;
use crate::ledger::Ledger;
use crate::record::EscrowRecord;
use vstd::prelude::*;

verus! {

/// A custody account: the asset it holds and the derived authority, the
/// address of its record, that alone may move the asset out.
#[derive(Clone, Copy, Debug, PartialEq, Eq)]
pub struct Vault {
    pub authority: Identity,
    pub asset: Identity,
}

/// What the closing of a vault did.
#[derive(Clone, Copy, Debug, PartialEq, Eq)]
pub struct Closure {
    /// Who gets back the allocation fee of the closed account: the maker.
    pub fee_recipient: Identity,
    /// The balance that left the vault, all of it.
    pub released: u64,
}

/// The vault custodian: what every vault holds, out of reach of the asset
/// ledger's holders.
pub struct Custodian {
    held: Ledger,
}

/// The asset ledger and the vaults together hold no more of any asset than
/// fits in a `u64`.
pub open spec fn solvent(ledger: &Ledger, custodian: &Custodian) -> bool {
    forall|asset: Seq<u8>| #[trigger]
        ledger.supply(asset) + custodian.in_custody(asset) <= u64::MAX
}

impl Custodian {
    /// What the vault under `authority` holds of `asset`; zero where there
    /// is no such vault.
    pub closed spec fn holding(&self, authority: Seq<u8>, asset: Seq<u8>) -> nat {
        self.held.balance(authority, asset)
    }

    /// What all vaults together hold of `asset`.
    pub closed spec fn in_custody(&self, asset: Seq<u8>) -> nat {
        self.held.supply(asset)
    }

    /// The custodian's invariant.
    pub closed spec fn wf(&self) -> bool {
        self.held.wf()
    }

    /// A custodian without vaults.
    pub fn new() -> (custodian: Custodian)
        ensures
            custodian.wf(),
            forall|authority: Seq<u8>, asset: Seq<u8>| #[trigger]
                custodian.holding(authority, asset) == 0,
            forall|asset: Seq<u8>| #[trigger] custodian.in_custody(asset) == 0,
    {
        Custodian { held: Ledger::new() }
    }

    /// What the vault under `authority` holds of `asset`.
    pub fn balance_of(&self, authority: &Identity, asset: &Identity) -> (amount: u64)
        requires
            self.wf(),
        ensures
            amount == self.holding(authority@, asset@),
    {
        self.held.balance_of(authority, asset)
    }

    /// What all vaults together hold of `asset`.
    pub fn custody_of(&self, asset: &Identity) -> (amount: u64)
        requires
            self.wf(),
        ensures
            amount == self.in_custody(asset@),
    {
        self.held.supply_of(asset)
    }

    /// Creates the vault of `record` under the authority `address` and moves
    /// `amount` of the offered asset from the maker into it.
    ///
    /// Refused, with nothing changed: with `InvalidState` exactly where a
    /// vault under that authority already holds the asset; otherwise with
    /// `InsufficientFunds` exactly where the maker owns less than `amount`.
    pub fn open(
        &mut self,
        ledger: &mut Ledger,
        address: &Identity,
        record: &EscrowRecord,
        amount: u64,
    ) -> (r: Result<Vault, EscrowError>)
        requires
            old(self).wf(),
            old(ledger).wf(),
            solvent(old(ledger), old(self)),
            amount > 0,
        ensures
            final(self).wf(),
            final(ledger).wf(),
            solvent(final(ledger), final(self)),
            r is Ok <==> old(self).holding(address@, record@.asset_offered) == 0 && old(
                ledger,
            ).balance(record@.owner_identity, record@.asset_offered) >= amount,
            r == Err::<Vault, EscrowError>(EscrowError::InvalidState) <==> old(self).holding(
                address@,
                record@.asset_offered,
            ) > 0,
            r == Err::<Vault, EscrowError>(EscrowError::InsufficientFunds) <==> old(self).holding(
                address@,
                record@.asset_offered,
            ) == 0 && old(ledger).balance(record@.owner_identity, record@.asset_offered) < amount,
            r is Err ==> *final(self) == *old(self) && *final(ledger) == *old(ledger),
            r matches Ok(vault) ==> {
                &&& vault.authority@ == address@
                &&& vault.asset@ == record@.asset_offered
                &&& forall|a: Seq<u8>, x: Seq<u8>| #[trigger]
                    final(self).holding(a, x) == old(self).holding(a, x) + (if a == address@ && x
                        == record@.asset_offered {
                        amount as nat
                    } else {
                        0
                    })
                &&& forall|h: Seq<u8>, x: Seq<u8>| #[trigger]
                    final(ledger).balance(h, x) == old(ledger).balance(h, x) - (if h
                        == record@.owner_identity && x == record@.asset_offered {
                        amount as nat
                    } else {
                        0
                    })
            },
            forall|x: Seq<u8>| #[trigger]
                final(ledger).supply(x) + final(self).in_custody(x) == old(ledger).supply(x) + old(
                    self,
                ).in_custody(x),
    {
        if self.held.balance_of(address, &record.asset_offered) != 0 {
            return Err(EscrowError::InvalidState);
        }
        if ledger.balance_of(&record.owner_identity, &record.asset_offered) < amount {
            return Err(EscrowError::InsufficientFunds);
        }
        proof {
            ledger.lemma_balances_within_supply(
                record@.owner_identity,
                record@.owner_identity,
                record@.asset_offered,
            );
            assert(ledger.supply(record@.asset_offered) + self.in_custody(record@.asset_offered)
                <= u64::MAX);
        }
        ledger.debit(&record.owner_identity, &record.asset_offered, amount);
        self.held.credit(address, &record.asset_offered, amount);
        proof {
            assert forall|asset: Seq<u8>| #[trigger]
                ledger.supply(asset) + self.in_custody(asset) <= u64::MAX by {
                assert(old(ledger).supply(asset) + old(self).in_custody(asset) <= u64::MAX);
            }
        }
        Ok(Vault { authority: *address, asset: record.asset_offered })
    }

    /// Moves the whole balance of `vault` to `destination` and closes the
    /// vault, on the strength of `authority`: the address that the caller
    /// re-derived from `record`. The maker of `record` is named as the one to
    /// whom the vault's allocation fee goes back.
    ///
    /// Refused, with nothing changed: with `Unauthorized` exactly where
    /// `authority` is not the vault's own authority; otherwise with
    /// `InvalidState` exactly where the vault holds nothing.
    pub fn release(
        &mut self,
        ledger: &mut Ledger,
        vault: &Vault,
        destination: &Identity,
        record: &EscrowRecord,
        authority: Option<Identity>,
    ) -> (r: Result<Closure, EscrowError>)
        requires
            old(self).wf(),
            old(ledger).wf(),
            solvent(old(ledger), old(self)),
        ensures
            final(self).wf(),
            final(ledger).wf(),
            solvent(final(ledger), final(self)),
            r is Ok <==> authorizes(authority, vault.authority@) && old(self).holding(
                vault.authority@,
                vault.asset@,
            ) > 0,
            r == Err::<Closure, EscrowError>(EscrowError::Unauthorized) <==> !authorizes(
                authority,
                vault.authority@,
            ),
            r == Err::<Closure, EscrowError>(EscrowError::InvalidState) <==> authorizes(
                authority,
                vault.authority@,
            ) && old(self).holding(vault.authority@, vault.asset@) == 0,
            r is Err ==> *final(self) == *old(self) && *final(ledger) == *old(ledger),
            r matches Ok(closure) ==> {
                &&& closure.fee_recipient@ == record@.owner_identity
                &&& closure.released == old(self).holding(vault.authority@, vault.asset@)
                &&& forall|a: Seq<u8>, x: Seq<u8>| #[trigger]
                    final(self).holding(a, x) == if a == vault.authority@ && x == vault.asset@ {
                        0
                    } else {
                        old(self).holding(a, x)
                    }
                &&& forall|h: Seq<u8>, x: Seq<u8>| #[trigger]
                    final(ledger).balance(h, x) == old(ledger).balance(h, x) + (if h
                        == destination@ && x == vault.asset@ {
                        closure.released as nat
                    } else {
                        0
                    })
            },
            forall|x: Seq<u8>| #[trigger]
                final(ledger).supply(x) + final(self).in_custody(x) == old(ledger).supply(x) + old(
                    self,
                ).in_custody(x),
    {
        if !authorized(&authority, &vault.authority) {
            return Err(EscrowError::Unauthorized);
        }
        let amount = self.held.balance_of(&vault.authority, &vault.asset);
        if amount == 0 {
            return Err(EscrowError::InvalidState);
        }
        proof {
            self.held.lemma_balances_within_supply(vault.authority@, vault.authority@, vault.asset@);
            assert(ledger.supply(vault.asset@) + self.in_custody(vault.asset@) <= u64::MAX);
        }
        self.held.debit(&vault.authority, &vault.asset, amount);
        ledger.credit(destination, &vault.asset, amount);
        proof {
            assert forall|asset: Seq<u8>| #[trigger]
                ledger.supply(asset) + self.in_custody(asset) <= u64::MAX by {
                assert(old(ledger).supply(asset) + old(self).in_custody(asset) <= u64::MAX);
            }
        }
        Ok(Closure { fee_recipient: record.owner_identity, released: amount })
    }
}

/// Whether a re-derived address is the authority `required`.
pub open spec fn authorizes(authority: Option<Identity>, required: Seq<u8>) -> bool {
    authority matches Some(a) && a@ == required
}

/// Decides whether a re-derived address is the authority `required`.
pub fn authorized(authority: &Option<Identity>, required: &Identity) -> (r: bool)
    ensures
        r == authorizes(*authority, required@),
{
    match authority {
        Some(a) => a.same(required),
        None => false,
    }
}

} // verus!
