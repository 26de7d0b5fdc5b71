use crate::error::EscrowError;
use crate::identity::Identity;
use vstd::prelude::*;

verus! {

/// One line of the ledger: what one holder owns of one asset.
#[derive(Clone, Copy, Debug)]
pub struct Holding {
    pub holder: Identity,
    pub asset: Identity,
    pub amount: u64,
}

/// What a sum over the ledger's lines counts.
pub enum Scope {
    /// The lines of one holder in one asset.
    Account { holder: Seq<u8>, asset: Seq<u8> },
    /// Every line in one asset.
    Asset { asset: Seq<u8> },
}

/// What one line adds to a sum over `scope`.
pub open spec fn weight(h: Holding, scope: Scope) -> nat {
    match scope {
        Scope::Account { holder, asset } => if h.holder@ == holder && h.asset@ == asset {
            h.amount as nat
        } else {
            0
        },
        Scope::Asset { asset } => if h.asset@ == asset {
            h.amount as nat
        } else {
            0
        },
    }
}

/// The sum of the lines of `s` that `scope` counts.
pub open spec fn total(s: Seq<Holding>, scope: Scope) -> nat
    decreases s.len(),
{
    if s.len() == 0 {
        0
    } else {
        total(s.drop_last(), scope) + weight(s.last(), scope)
    }
}

/// No two lines speak of the same holder and asset.
pub open spec fn distinct_accounts(s: Seq<Holding>) -> bool {
    forall|i: int, j: int|
        0 <= i < j < s.len() ==> !(s[i].holder@ == s[j].holder@ && s[i].asset@ == s[j].asset@)
}

proof fn lemma_total_push(s: Seq<Holding>, h: Holding, scope: Scope)
    ensures
        total(s.push(h), scope) == total(s, scope) + weight(h, scope),
{
    assert(s.push(h).drop_last() =~= s);
}

proof fn lemma_total_update(s: Seq<Holding>, i: int, h: Holding, scope: Scope)
    requires
        0 <= i < s.len(),
    ensures
        total(s.update(i, h), scope) + weight(s[i], scope) == total(s, scope) + weight(h, scope),
    decreases s.len(),
{
    let t = s.update(i, h);
    if i == s.len() - 1 {
        assert(t.drop_last() =~= s.drop_last());
    } else {
        lemma_total_update(s.drop_last(), i, h, scope);
        assert(t.drop_last() =~= s.drop_last().update(i, h));
    }
}

/// With distinct accounts, a holder's sum is the amount on its one line.
proof fn lemma_total_at(s: Seq<Holding>, i: int)
    requires
        distinct_accounts(s),
        0 <= i < s.len(),
    ensures
        total(s, Scope::Account { holder: s[i].holder@, asset: s[i].asset@ }) == s[i].amount,
    decreases s.len(),
{
    let scope = Scope::Account { holder: s[i].holder@, asset: s[i].asset@ };
    if i == s.len() - 1 {
        lemma_total_absent(s.drop_last(), s[i].holder@, s[i].asset@);
    } else {
        lemma_total_at(s.drop_last(), i);
    }
}

/// A holder without a line has a sum of zero.
proof fn lemma_total_absent(s: Seq<Holding>, holder: Seq<u8>, asset: Seq<u8>)
    requires
        forall|j: int| 0 <= j < s.len() ==> !(s[j].holder@ == holder && s[j].asset@ == asset),
    ensures
        total(s, Scope::Account { holder, asset }) == 0,
    decreases s.len(),
{
    if s.len() > 0 {
        lemma_total_absent(s.drop_last(), holder, asset);
    }
}

/// Two different holders of one asset own, together, no more than its supply.
proof fn lemma_two_accounts_within_supply(
    s: Seq<Holding>,
    first: Seq<u8>,
    second: Seq<u8>,
    asset: Seq<u8>,
)
    requires
        first != second,
    ensures
        total(s, Scope::Account { holder: first, asset }) + total(
            s,
            Scope::Account { holder: second, asset },
        ) <= total(s, Scope::Asset { asset }),
    decreases s.len(),
{
    if s.len() > 0 {
        lemma_two_accounts_within_supply(s.drop_last(), first, second, asset);
    }
}

/// One holder of an asset owns no more than its supply.
proof fn lemma_account_within_supply(s: Seq<Holding>, holder: Seq<u8>, asset: Seq<u8>)
    ensures
        total(s, Scope::Account { holder, asset }) <= total(s, Scope::Asset { asset }),
    decreases s.len(),
{
    if s.len() > 0 {
        lemma_account_within_supply(s.drop_last(), holder, asset);
    }
}

/// What an account that held `before` holds after `amount` of `asset` has
/// moved from `from` to `to`.
pub open spec fn after_transfer(
    before: nat,
    holder: Seq<u8>,
    held: Seq<u8>,
    asset: Seq<u8>,
    from: Seq<u8>,
    to: Seq<u8>,
    amount: u64,
) -> int {
    if held == asset && from != to && holder == from {
        before - amount
    } else if held == asset && from != to && holder == to {
        before + amount
    } else {
        before as int
    }
}

/// The asset ledger: who owns how much of which asset.
///
/// Its model is the pair of functions `balance` and `supply`. The supply of
/// every asset fits in a `u64`, so no balance can overflow.
pub struct Ledger {
    entries: Vec<Holding>,
}

impl Ledger {
    /// What `holder` owns of `asset`.
    pub closed spec fn balance(&self, holder: Seq<u8>, asset: Seq<u8>) -> nat {
        total(self.entries@, Scope::Account { holder, asset })
    }

    /// What all holders together own of `asset`.
    pub closed spec fn supply(&self, asset: Seq<u8>) -> nat {
        total(self.entries@, Scope::Asset { asset })
    }

    /// The ledger's invariant: one line per account, and every supply fits.
    pub closed spec fn wf(&self) -> bool {
        &&& distinct_accounts(self.entries@)
        &&& forall|asset: Seq<u8>| #[trigger] self.supply(asset) <= u64::MAX
    }

    /// No balance exceeds the supply of its asset, and two holders of one
    /// asset together do not exceed it either.
    pub proof fn lemma_balances_within_supply(&self, first: Seq<u8>, second: Seq<u8>, asset: Seq<u8>)
        ensures
            self.balance(first, asset) <= self.supply(asset),
            first != second ==> self.balance(first, asset) + self.balance(second, asset)
                <= self.supply(asset),
    {
        lemma_account_within_supply(self.entries@, first, asset);
        if first != second {
            lemma_two_accounts_within_supply(self.entries@, first, second, asset);
        }
    }

    /// An empty ledger: every balance and every supply is zero.
    pub fn new() -> (ledger: Ledger)
        ensures
            ledger.wf(),
            forall|holder: Seq<u8>, asset: Seq<u8>| #[trigger] ledger.balance(holder, asset) == 0,
            forall|asset: Seq<u8>| #[trigger] ledger.supply(asset) == 0,
    {
        Ledger { entries: Vec::new() }
    }

    /// The line of an account, if it has one.
    fn find(&self, holder: &Identity, asset: &Identity) -> (r: Option<usize>)
        ensures
            match r {
                Some(i) => i < self.entries@.len() && self.entries@[i as int].holder@ == holder@
                    && self.entries@[i as int].asset@ == asset@,
                None => forall|j: int|
                    0 <= j < self.entries@.len() ==> !(self.entries@[j].holder@ == holder@
                        && self.entries@[j].asset@ == asset@),
            },
    {
        let mut i: usize = 0;
        while i < self.entries.len()
            invariant
                i <= self.entries@.len(),
                forall|j: int|
                    0 <= j < i ==> !(self.entries@[j].holder@ == holder@ && self.entries@[j].asset@
                        == asset@),
            decreases self.entries@.len() - i,
        {
            if self.entries[i].holder.same(holder) && self.entries[i].asset.same(asset) {
                return Some(i);
            }
            i += 1;
        }
        None
    }

    /// What `holder` owns of `asset`.
    pub fn balance_of(&self, holder: &Identity, asset: &Identity) -> (amount: u64)
        requires
            self.wf(),
        ensures
            amount == self.balance(holder@, asset@),
    {
        match self.find(holder, asset) {
            Some(i) => {
                proof {
                    lemma_total_at(self.entries@, i as int);
                }
                self.entries[i].amount
            },
            None => {
                proof {
                    lemma_total_absent(self.entries@, holder@, asset@);
                }
                0
            },
        }
    }

    /// What all holders together own of `asset`.
    pub fn supply_of(&self, asset: &Identity) -> (amount: u64)
        requires
            self.wf(),
        ensures
            amount == self.supply(asset@),
    {
        let mut sum: u64 = 0;
        let mut i: usize = 0;
        let ghost scope = Scope::Asset { asset: asset@ };
        assert(self.supply(asset@) <= u64::MAX);
        while i < self.entries.len()
            invariant
                i <= self.entries@.len(),
                scope == (Scope::Asset { asset: asset@ }),
                sum == total(self.entries@.subrange(0, i as int), scope),
                total(self.entries@, scope) <= u64::MAX,
            decreases self.entries@.len() - i,
        {
            proof {
                let next = self.entries@.subrange(0, i as int + 1);
                assert(next.drop_last() =~= self.entries@.subrange(0, i as int));
                lemma_total_prefix(self.entries@, i as int + 1, scope);
            }
            if self.entries[i].asset.same(asset) {
                sum = sum + self.entries[i].amount;
            }
            i += 1;
        }
        assert(self.entries@.subrange(0, i as int) =~= self.entries@);
        sum
    }

    /// Adds `amount` to what `holder` owns of `asset`.
    pub(crate) fn credit(&mut self, holder: &Identity, asset: &Identity, amount: u64)
        requires
            old(self).wf(),
            old(self).supply(asset@) + amount <= u64::MAX,
        ensures
            final(self).wf(),
            forall|h: Seq<u8>, a: Seq<u8>| #[trigger]
                final(self).balance(h, a) == old(self).balance(h, a) + (if h == holder@ && a
                    == asset@ {
                    amount as nat
                } else {
                    0
                }),
            forall|a: Seq<u8>| #[trigger]
                final(self).supply(a) == old(self).supply(a) + (if a == asset@ {
                    amount as nat
                } else {
                    0
                }),
    {
        let ghost before = self.entries@;
        match self.find(holder, asset) {
            Some(i) => {
                let line = self.entries[i];
                proof {
                    lemma_total_at(before, i as int);
                    lemma_account_within_supply(before, holder@, asset@);
                }
                let grown = Holding {
                    holder: line.holder,
                    asset: line.asset,
                    amount: line.amount + amount,
                };
                self.entries.set(i, grown);
                proof {
                    assert forall|h: Seq<u8>, a: Seq<u8>| #[trigger]
                        self.balance(h, a) == old(self).balance(h, a) + (if h == holder@ && a
                            == asset@ {
                            amount as nat
                        } else {
                            0
                        }) by {
                        lemma_total_update(before, i as int, grown, Scope::Account { holder: h, asset: a });
                    }
                    assert forall|a: Seq<u8>| #[trigger]
                        self.supply(a) == old(self).supply(a) + (if a == asset@ {
                            amount as nat
                        } else {
                            0
                        }) by {
                        lemma_total_update(before, i as int, grown, Scope::Asset { asset: a });
                    }
                    assert forall|a: Seq<u8>| #[trigger] self.supply(a) <= u64::MAX by {
                        assert(old(self).supply(a) <= u64::MAX);
                    }
                }
            },
            None => {
                let line = Holding { holder: *holder, asset: *asset, amount };
                self.entries.push(line);
                proof {
                    assert forall|h: Seq<u8>, a: Seq<u8>| #[trigger]
                        self.balance(h, a) == old(self).balance(h, a) + (if h == holder@ && a
                            == asset@ {
                            amount as nat
                        } else {
                            0
                        }) by {
                        lemma_total_push(before, line, Scope::Account { holder: h, asset: a });
                    }
                    assert forall|a: Seq<u8>| #[trigger]
                        self.supply(a) == old(self).supply(a) + (if a == asset@ {
                            amount as nat
                        } else {
                            0
                        }) by {
                        lemma_total_push(before, line, Scope::Asset { asset: a });
                    }
                    assert forall|a: Seq<u8>| #[trigger] self.supply(a) <= u64::MAX by {
                        assert(old(self).supply(a) <= u64::MAX);
                    }
                }
            },
        }
    }

    /// Takes `amount` from what `holder` owns of `asset`.
    pub(crate) fn debit(&mut self, holder: &Identity, asset: &Identity, amount: u64)
        requires
            old(self).wf(),
            old(self).balance(holder@, asset@) >= amount,
        ensures
            final(self).wf(),
            forall|h: Seq<u8>, a: Seq<u8>| #[trigger]
                final(self).balance(h, a) == old(self).balance(h, a) - (if h == holder@ && a
                    == asset@ {
                    amount as nat
                } else {
                    0
                }),
            forall|a: Seq<u8>| #[trigger]
                final(self).supply(a) == old(self).supply(a) - (if a == asset@ {
                    amount as nat
                } else {
                    0
                }),
    {
        let ghost before = self.entries@;
        match self.find(holder, asset) {
            Some(i) => {
                let line = self.entries[i];
                proof {
                    lemma_total_at(before, i as int);
                }
                let shrunk = Holding {
                    holder: line.holder,
                    asset: line.asset,
                    amount: line.amount - amount,
                };
                self.entries.set(i, shrunk);
                proof {
                    assert forall|h: Seq<u8>, a: Seq<u8>| #[trigger]
                        self.balance(h, a) == old(self).balance(h, a) - (if h == holder@ && a
                            == asset@ {
                            amount as nat
                        } else {
                            0
                        }) by {
                        lemma_total_update(before, i as int, shrunk, Scope::Account { holder: h, asset: a });
                    }
                    assert forall|a: Seq<u8>| #[trigger]
                        self.supply(a) == old(self).supply(a) - (if a == asset@ {
                            amount as nat
                        } else {
                            0
                        }) by {
                        lemma_total_update(before, i as int, shrunk, Scope::Asset { asset: a });
                    }
                    assert forall|a: Seq<u8>| #[trigger] self.supply(a) <= u64::MAX by {
                        assert(old(self).supply(a) <= u64::MAX);
                    }
                }
            },
            None => {
                proof {
                    lemma_total_absent(before, holder@, asset@);
                }
            },
        }
    }

    /// Brings `amount` new units of `asset` into being and gives them to
    /// `holder`. Refused, with nothing changed, exactly where the supply of
    /// the asset would no longer fit in a `u64`.
    pub fn issue(&mut self, holder: &Identity, asset: &Identity, amount: u64) -> (done: bool)
        requires
            old(self).wf(),
        ensures
            final(self).wf(),
            done == (old(self).supply(asset@) + amount <= u64::MAX),
            !done ==> *final(self) == *old(self),
            done ==> forall|h: Seq<u8>, a: Seq<u8>| #[trigger]
                final(self).balance(h, a) == old(self).balance(h, a) + (if h == holder@ && a
                    == asset@ {
                    amount as nat
                } else {
                    0
                }),
            done ==> forall|a: Seq<u8>| #[trigger]
                final(self).supply(a) == old(self).supply(a) + (if a == asset@ {
                    amount as nat
                } else {
                    0
                }),
    {
        let supply = self.supply_of(asset);
        if amount > u64::MAX - supply {
            return false;
        }
        self.credit(holder, asset, amount);
        true
    }

    /// Moves `amount` of `asset` from `from` to `to`: debit and credit in one
    /// step, or nothing at all.
    ///
    /// Refused with `InsufficientFunds` exactly where `from` owns less than
    /// `amount`. A transfer to oneself changes nothing.
    pub fn transfer(&mut self, asset: &Identity, from: &Identity, to: &Identity, amount: u64) -> (r:
        Result<(), EscrowError>)
        requires
            old(self).wf(),
        ensures
            final(self).wf(),
            r is Ok <==> old(self).balance(from@, asset@) >= amount,
            r is Err ==> r == Err::<(), EscrowError>(EscrowError::InsufficientFunds) && *final(self)
                == *old(self),
            r is Ok ==> forall|h: Seq<u8>, a: Seq<u8>| #[trigger]
                final(self).balance(h, a) == after_transfer(
                    old(self).balance(h, a),
                    h,
                    a,
                    asset@,
                    from@,
                    to@,
                    amount,
                ),
            forall|a: Seq<u8>| #[trigger] final(self).supply(a) == old(self).supply(a),
    {
        if self.balance_of(from, asset) < amount {
            return Err(EscrowError::InsufficientFunds);
        }
        if from.same(to) {
            return Ok(());
        }
        proof {
            self.lemma_balances_within_supply(from@, to@, asset@);
            assert(self.supply(asset@) <= u64::MAX);
        }
        self.debit(from, asset, amount);
        self.credit(to, asset, amount);
        Ok(())
    }
}

/// A sum over the first lines is no more than the sum over all of them.
proof fn lemma_total_prefix(s: Seq<Holding>, n: int, scope: Scope)
    requires
        0 <= n <= s.len(),
    ensures
        total(s.subrange(0, n), scope) <= total(s, scope),
    decreases s.len(),
{
    if n == s.len() {
        assert(s.subrange(0, n) =~= s);
    } else {
        lemma_total_prefix(s.drop_last(), n, scope);
        assert(s.drop_last().subrange(0, n) =~= s.subrange(0, n));
    }
}

} // verus!
