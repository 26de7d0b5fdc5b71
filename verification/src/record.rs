use crate::error::EscrowError;
use crate::identity::Identity;
use crate::vault::Custodian;
use vstd::prelude::*;

verus! {

/// The terms of one open trade.
#[derive(Clone, Copy, Debug, PartialEq, Eq)]
pub struct EscrowRecord {
    /// The maker: who is paid on fulfillment and refunded on cancellation.
    pub owner_identity: Identity,
    /// The asset locked in the vault.
    pub asset_offered: Identity,
    /// The asset the maker wants in return.
    pub asset_requested: Identity,
    /// How much of `asset_requested` a taker must pay.
    pub amount_requested: u64,
    /// The maker's discriminator between simultaneous trades.
    pub nonce: u64,
    /// The value from which the record's address is re-derived.
    pub derivation_proof: u8,
}

/// The mathematical value of a record.
pub ghost struct RecordView {
    pub owner_identity: Seq<u8>,
    pub asset_offered: Seq<u8>,
    pub asset_requested: Seq<u8>,
    pub amount_requested: u64,
    pub nonce: u64,
    pub derivation_proof: u8,
}

impl View for EscrowRecord {
    type V = RecordView;

    open spec fn view(&self) -> RecordView {
        RecordView {
            owner_identity: self.owner_identity@,
            asset_offered: self.asset_offered@,
            asset_requested: self.asset_requested@,
            amount_requested: self.amount_requested,
            nonce: self.nonce,
            derivation_proof: self.derivation_proof,
        }
    }
}

/// The record that states the given terms.
pub open spec fn terms(
    maker: Seq<u8>,
    asset_offered: Seq<u8>,
    asset_requested: Seq<u8>,
    amount_requested: u64,
    nonce: u64,
    proof: u8,
) -> RecordView {
    RecordView {
        owner_identity: maker,
        asset_offered,
        asset_requested,
        amount_requested,
        nonce,
        derivation_proof: proof,
    }
}

impl EscrowRecord {
    /// Whether two records state the same terms.
    pub fn same(&self, other: &EscrowRecord) -> (r: bool)
        ensures
            r == (self@ == other@),
    {
        self.owner_identity.same(&other.owner_identity) && self.asset_offered.same(
            &other.asset_offered,
        ) && self.asset_requested.same(&other.asset_requested) && self.amount_requested
            == other.amount_requested && self.nonce == other.nonce && self.derivation_proof
            == other.derivation_proof
    }
}

/// A record in storage, at its address.
#[derive(Clone, Copy, Debug)]
pub struct Slot {
    pub address: Identity,
    pub record: EscrowRecord,
}

/// The record that `s` holds at `address`, if any.
pub open spec fn lookup(s: Seq<Slot>, address: Seq<u8>) -> Option<RecordView>
    decreases s.len(),
{
    if s.len() == 0 {
        None
    } else if s.last().address@ == address {
        Some(s.last().record@)
    } else {
        lookup(s.drop_last(), address)
    }
}

/// No two slots share an address.
pub open spec fn distinct_addresses(s: Seq<Slot>) -> bool {
    forall|i: int, j: int| 0 <= i < j < s.len() ==> s[i].address@ != s[j].address@
}

proof fn lemma_lookup_absent(s: Seq<Slot>, address: Seq<u8>)
    requires
        forall|j: int| 0 <= j < s.len() ==> s[j].address@ != address,
    ensures
        lookup(s, address) is None,
    decreases s.len(),
{
    if s.len() > 0 {
        lemma_lookup_absent(s.drop_last(), address);
    }
}

proof fn lemma_lookup_at(s: Seq<Slot>, i: int)
    requires
        distinct_addresses(s),
        0 <= i < s.len(),
    ensures
        lookup(s, s[i].address@) == Some(s[i].record@),
    decreases s.len(),
{
    if i < s.len() - 1 {
        lemma_lookup_at(s.drop_last(), i);
    }
}

proof fn lemma_lookup_push(s: Seq<Slot>, slot: Slot, address: Seq<u8>)
    ensures
        lookup(s.push(slot), address) == if slot.address@ == address {
            Some(slot.record@)
        } else {
            lookup(s, address)
        },
{
    assert(s.push(slot).drop_last() =~= s);
}

proof fn lemma_lookup_remove(s: Seq<Slot>, i: int, address: Seq<u8>)
    requires
        distinct_addresses(s),
        0 <= i < s.len(),
    ensures
        lookup(s.remove(i), address) == if s[i].address@ == address {
            None
        } else {
            lookup(s, address)
        },
    decreases s.len(),
{
    let t = s.remove(i);
    if i == s.len() - 1 {
        assert(t =~= s.drop_last());
        if s[i].address@ == address {
            lemma_lookup_absent(t, address);
        }
    } else {
        assert(t.drop_last() =~= s.drop_last().remove(i));
        assert(t.last() == s.last());
        lemma_lookup_remove(s.drop_last(), i, address);
    }
}

/// The escrow record manager: the records of the open trades, each at the
/// address derived for it.
pub struct Registry {
    slots: Vec<Slot>,
}

impl Registry {
    /// The record at `address`, if a trade is open there.
    pub closed spec fn record_at(&self, address: Seq<u8>) -> Option<RecordView> {
        lookup(self.slots@, address)
    }

    /// The registry's invariant: one record per address.
    pub closed spec fn wf(&self) -> bool {
        distinct_addresses(self.slots@)
    }

    /// A registry without records.
    pub fn new() -> (registry: Registry)
        ensures
            registry.wf(),
            forall|address: Seq<u8>| #[trigger] registry.record_at(address) is None,
    {
        Registry { slots: Vec::new() }
    }

    fn find(&self, address: &Identity) -> (r: Option<usize>)
        ensures
            match r {
                Some(i) => i < self.slots@.len() && self.slots@[i as int].address@ == address@,
                None => forall|j: int| 0 <= j < self.slots@.len() ==> self.slots@[j].address@ != address@,
            },
    {
        let mut i: usize = 0;
        while i < self.slots.len()
            invariant
                i <= self.slots@.len(),
                forall|j: int| 0 <= j < i ==> self.slots@[j].address@ != address@,
            decreases self.slots@.len() - i,
        {
            if self.slots[i].address.same(address) {
                return Some(i);
            }
            i += 1;
        }
        None
    }

    /// Reads the record at `address`.
    pub fn lookup(&self, address: &Identity) -> (r: Option<EscrowRecord>)
        requires
            self.wf(),
        ensures
            match r {
                Some(record) => self.record_at(address@) == Some(record@),
                None => self.record_at(address@) is None,
            },
    {
        match self.find(address) {
            Some(i) => {
                proof {
                    lemma_lookup_at(self.slots@, i as int);
                }
                Some(self.slots[i].record)
            },
            None => {
                proof {
                    lemma_lookup_absent(self.slots@, address@);
                }
                None
            },
        }
    }

    /// Creates the record of a new trade at `address`, the address derived
    /// for `maker` and `nonce`, with `proof` as its derivation proof.
    ///
    /// Refused with `InvalidState`, and nothing changed, exactly where a
    /// record already occupies the address.
    pub fn create(
        &mut self,
        address: &Identity,
        proof: u8,
        nonce: u64,
        amount_requested: u64,
        maker: &Identity,
        asset_offered: &Identity,
        asset_requested: &Identity,
    ) -> (r: Result<EscrowRecord, EscrowError>)
        requires
            old(self).wf(),
        ensures
            final(self).wf(),
            r is Ok <==> old(self).record_at(address@) is None,
            r is Err ==> r == Err::<EscrowRecord, EscrowError>(EscrowError::InvalidState)
                && *final(self) == *old(self),
            r matches Ok(record) ==> {
                &&& record@ == terms(
                    maker@,
                    asset_offered@,
                    asset_requested@,
                    amount_requested,
                    nonce,
                    proof,
                )
                &&& forall|a: Seq<u8>| #[trigger]
                    final(self).record_at(a) == if a == address@ {
                        Some(record@)
                    } else {
                        old(self).record_at(a)
                    }
            },
    {
        match self.find(address) {
            Some(i) => {
                proof {
                    lemma_lookup_at(self.slots@, i as int);
                }
                Err(EscrowError::InvalidState)
            },
            None => {
                let record = EscrowRecord {
                    owner_identity: *maker,
                    asset_offered: *asset_offered,
                    asset_requested: *asset_requested,
                    amount_requested,
                    nonce,
                    derivation_proof: proof,
                };
                let slot = Slot { address: *address, record };
                let ghost before = self.slots@;
                self.slots.push(slot);
                proof {
                    lemma_lookup_absent(before, address@);
                    assert forall|a: Seq<u8>| #[trigger]
                        self.record_at(a) == if a == address@ {
                            Some(record@)
                        } else {
                            old(self).record_at(a)
                        } by {
                        lemma_lookup_push(before, slot, a);
                    }
                }
                Ok(record)
            },
        }
    }

    /// Destroys the record at `address` and names the maker, to whom the
    /// allocation fee held for the record goes back.
    ///
    /// Refused with `InvalidState`, and nothing changed, exactly where no
    /// record is at the address or the vault bound to the record still holds
    /// a balance.
    pub fn destroy(&mut self, address: &Identity, custodian: &Custodian) -> (r: Result<
        Identity,
        EscrowError,
    >)
        requires
            old(self).wf(),
            custodian.wf(),
        ensures
            final(self).wf(),
            r is Ok <==> (old(self).record_at(address@) matches Some(record) && custodian.holding(
                address@,
                record.asset_offered,
            ) == 0),
            r is Err ==> r == Err::<Identity, EscrowError>(EscrowError::InvalidState),
            r is Err ==> *final(self) == *old(self),
            r matches Ok(recipient) ==> {
                &&& old(self).record_at(address@) matches Some(record) && recipient@
                    == record.owner_identity
                &&& forall|a: Seq<u8>| #[trigger]
                    final(self).record_at(a) == if a == address@ {
                        None
                    } else {
                        old(self).record_at(a)
                    }
            },
    {
        match self.find(address) {
            Some(i) => {
                proof {
                    lemma_lookup_at(self.slots@, i as int);
                }
                let record = self.slots[i].record;
                if custodian.balance_of(address, &record.asset_offered) != 0 {
                    return Err(EscrowError::InvalidState);
                }
                let ghost before = self.slots@;
                self.slots.remove(i);
                proof {
                    assert forall|a: Seq<u8>| #[trigger]
                        self.record_at(a) == if a == address@ {
                            None
                        } else {
                            old(self).record_at(a)
                        } by {
                        lemma_lookup_remove(before, i as int, a);
                    }
                }
                Ok(record.owner_identity)
            },
            None => {
                proof {
                    lemma_lookup_absent(self.slots@, address@);
                }
                Err(EscrowError::InvalidState)
            },
        }
    }
}

} // verus!
