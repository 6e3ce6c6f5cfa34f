//! The accounts that the token ledger and the metadata program keep, and the
//! effect of each of their entry points that the mint calls: creating a supply
//! counter, a metadata record or a balance account, and increasing supply. The
//! entry points that act for an authority accept it only on an authorization
//! token whose seeds derive the authority's address.
use vstd::prelude::*;
use crate::address::Address;
use crate::authority::{created_address_of, AuthorizationToken};
use crate::error::MintError;

verus! {

/// The token type's record in the token ledger.
#[derive(Clone, Copy, Debug)]
pub struct SupplyCounter {
    pub address: Address,
    pub authority: Address,
    pub decimals: u8,
    pub supply: u64,
}

/// Descriptive fields attached to a token type.
#[derive(Clone, Debug)]
pub struct MetadataRecord {
    pub address: Address,
    pub mint: Address,
    pub update_authority: Address,
    pub name: String,
    pub symbol: String,
    pub uri: String,
}

/// One holder's balance of one token type.
#[derive(Clone, Copy, Debug)]
pub struct BalanceAccount {
    pub holder: Address,
    pub mint: Address,
    pub amount: u64,
}

/// The accounts that the token ledger and the metadata program keep.
#[derive(Clone, Debug)]
pub struct Ledger {
    pub counters: Vec<SupplyCounter>,
    pub metadata: Vec<MetadataRecord>,
    pub balances: Vec<BalanceAccount>,
}

/// The amount that `b` contributes to a sum over the balances of `mint`, held
/// by `holder` where one is given.
pub open spec fn counted(b: BalanceAccount, holder: Option<Seq<u8>>, mint: Seq<u8>) -> nat {
    if b.mint@ == mint && (holder is None || holder == Some(b.holder@)) {
        b.amount as nat
    } else {
        0
    }
}

/// The sum of the balances of `mint`, over all holders or over one.
pub open spec fn sum_where(bs: Seq<BalanceAccount>, holder: Option<Seq<u8>>, mint: Seq<u8>) -> nat
    decreases bs.len(),
{
    if bs.len() == 0 {
        0
    } else {
        sum_where(bs.drop_last(), holder, mint) + counted(bs.last(), holder, mint)
    }
}

/// Pushing a balance adds what it counts.
pub proof fn lemma_sum_push(bs: Seq<BalanceAccount>, b: BalanceAccount, holder: Option<Seq<u8>>, mint: Seq<u8>)
    ensures
        sum_where(bs.push(b), holder, mint) == sum_where(bs, holder, mint) + counted(b, holder, mint),
{
    assert(bs.push(b).drop_last() =~= bs);
}

/// Replacing one balance trades what it counted for what the new one counts.
pub proof fn lemma_sum_update(
    bs: Seq<BalanceAccount>,
    i: int,
    b: BalanceAccount,
    holder: Option<Seq<u8>>,
    mint: Seq<u8>,
)
    requires
        0 <= i < bs.len(),
    ensures
        sum_where(bs.update(i, b), holder, mint) + counted(bs[i], holder, mint)
            == sum_where(bs, holder, mint) + counted(b, holder, mint),
    decreases bs.len(),
{
    if i == bs.len() - 1 {
        assert(bs.update(i, b).drop_last() =~= bs.drop_last());
    } else {
        lemma_sum_update(bs.drop_last(), i, b, holder, mint);
        assert(bs.update(i, b).drop_last() =~= bs.drop_last().update(i, b));
    }
}

/// One balance counts no more than the whole sum.
pub proof fn lemma_sum_member(bs: Seq<BalanceAccount>, i: int, holder: Option<Seq<u8>>, mint: Seq<u8>)
    requires
        0 <= i < bs.len(),
    ensures
        counted(bs[i], holder, mint) <= sum_where(bs, holder, mint),
    decreases bs.len(),
{
    if i < bs.len() - 1 {
        lemma_sum_member(bs.drop_last(), i, holder, mint);
    }
}

/// With no balance of `mint`, every sum over it is zero.
pub proof fn lemma_sum_none(bs: Seq<BalanceAccount>, holder: Option<Seq<u8>>, mint: Seq<u8>)
    requires
        forall|i: int| 0 <= i < bs.len() ==> bs[i].mint@ != mint,
    ensures
        sum_where(bs, holder, mint) == 0,
    decreases bs.len(),
{
    if bs.len() > 0 {
        lemma_sum_none(bs.drop_last(), holder, mint);
    }
}

/// Where `holder` has no balance account of `mint`, its sum is zero.
pub proof fn lemma_sum_absent(bs: Seq<BalanceAccount>, holder: Seq<u8>, mint: Seq<u8>)
    requires
        forall|j: int| 0 <= j < bs.len() ==> !(bs[j].holder@ == holder && bs[j].mint@ == mint),
    ensures
        sum_where(bs, Some(holder), mint) == 0,
    decreases bs.len(),
{
    if bs.len() > 0 {
        lemma_sum_absent(bs.drop_last(), holder, mint);
    }
}

impl Ledger {
    pub open spec fn unique_counters(&self) -> bool {
        forall|i: int, j: int|
            0 <= i < j < self.counters@.len() ==> self.counters@[i].address@ != self.counters@[j].address@
    }

    pub open spec fn has_counter(&self, a: Seq<u8>) -> bool {
        exists|i: int| 0 <= i < self.counters@.len() && self.counters@[i].address@ == a
    }

    /// The supply counter at address `a`, where `has_counter(a)`.
    pub open spec fn counter(&self, a: Seq<u8>) -> SupplyCounter {
        self.counters@[choose|i: int| 0 <= i < self.counters@.len() && self.counters@[i].address@ == a]
    }

    pub open spec fn has_metadata(&self, a: Seq<u8>) -> bool {
        exists|i: int| 0 <= i < self.metadata@.len() && self.metadata@[i].address@ == a
    }

    /// The metadata record at address `a`, where `has_metadata(a)`.
    pub open spec fn metadata_at(&self, a: Seq<u8>) -> MetadataRecord {
        self.metadata@[choose|i: int| 0 <= i < self.metadata@.len() && self.metadata@[i].address@ == a]
    }

    pub open spec fn has_balance(&self, holder: Seq<u8>, mint: Seq<u8>) -> bool {
        exists|i: int|
            0 <= i < self.balances@.len() && self.balances@[i].holder@ == holder
                && self.balances@[i].mint@ == mint
    }

    /// What `holder` holds of `mint` (zero where it has no balance account).
    pub open spec fn balance(&self, holder: Seq<u8>, mint: Seq<u8>) -> nat {
        sum_where(self.balances@, Some(holder), mint)
    }

    /// What all holders together hold of `mint`.
    pub open spec fn held(&self, mint: Seq<u8>) -> nat {
        sum_where(self.balances@, None, mint)
    }

    /// Addresses are unique, every balance belongs to a supply counter, and
    /// every counter's supply is what its holders hold together.
    pub open spec fn wf(&self) -> bool {
        &&& self.unique_counters()
        &&& forall|i: int, j: int|
            0 <= i < j < self.metadata@.len() ==> self.metadata@[i].address@ != self.metadata@[j].address@
        &&& forall|i: int, j: int|
            0 <= i < j < self.balances@.len() ==> !(self.balances@[i].holder@ == self.balances@[j].holder@
                && self.balances@[i].mint@ == self.balances@[j].mint@)
        &&& forall|i: int|
            0 <= i < self.balances@.len() ==> #[trigger] self.has_counter(self.balances@[i].mint@)
        &&& forall|i: int|
            0 <= i < self.counters@.len() ==> self.counters@[i].supply as nat == self.held(
                #[trigger] self.counters@[i].address@,
            )
    }

    /// A ledger with no accounts.
    pub fn new() -> (r: Ledger)
        ensures
            r.wf(),
            r.counters@.len() == 0,
            r.metadata@.len() == 0,
            r.balances@.len() == 0,
    {
        Ledger { counters: Vec::new(), metadata: Vec::new(), balances: Vec::new() }
    }

    /// With unique addresses, the counter at an index is the counter at its address.
    pub proof fn lemma_counter_at(&self, i: int)
        requires
            self.unique_counters(),
            0 <= i < self.counters@.len(),
        ensures
            self.has_counter(self.counters@[i].address@),
            self.counter(self.counters@[i].address@) == self.counters@[i],
    {
        let a = self.counters@[i].address@;
        assert(self.has_counter(a));
        let j = choose|j: int| 0 <= j < self.counters@.len() && self.counters@[j].address@ == a;
        if j < i {
        } else if i < j {
        }
    }

    /// The index of the supply counter at `a`.
    pub fn find_counter(&self, a: &Address) -> (r: Option<usize>)
        requires
            self.wf(),
        ensures
            r is Some <==> self.has_counter(a@),
            match r {
                Some(i) => i < self.counters@.len() && self.counters@[i as int].address@ == a@
                    && self.counter(a@) == self.counters@[i as int],
                None => true,
            },
    {
        let mut i: usize = 0;
        while i < self.counters.len()
            invariant
                self.wf(),
                i <= self.counters@.len(),
                forall|j: int| 0 <= j < i ==> self.counters@[j].address@ != a@,
            decreases self.counters@.len() - i,
        {
            if self.counters[i].address.same(a) {
                proof {
                    self.lemma_counter_at(i as int);
                }
                return Some(i);
            }
            i = i + 1;
        }
        None
    }

    /// The index of the metadata record at `a`.
    pub fn find_metadata(&self, a: &Address) -> (r: Option<usize>)
        requires
            self.wf(),
        ensures
            r is Some <==> self.has_metadata(a@),
            match r {
                Some(i) => i < self.metadata@.len() && self.metadata@[i as int].address@ == a@,
                None => true,
            },
    {
        let mut i: usize = 0;
        while i < self.metadata.len()
            invariant
                i <= self.metadata@.len(),
                forall|j: int| 0 <= j < i ==> self.metadata@[j].address@ != a@,
            decreases self.metadata@.len() - i,
        {
            if self.metadata[i].address.same(a) {
                return Some(i);
            }
            i = i + 1;
        }
        None
    }

    /// The index of `holder`'s balance account of `mint`.
    pub fn find_balance(&self, holder: &Address, mint: &Address) -> (r: Option<usize>)
        requires
            self.wf(),
        ensures
            r is Some <==> self.has_balance(holder@, mint@),
            match r {
                Some(i) => i < self.balances@.len() && self.balances@[i as int].holder@ == holder@
                    && self.balances@[i as int].mint@ == mint@,
                None => true,
            },
    {
        let mut i: usize = 0;
        while i < self.balances.len()
            invariant
                i <= self.balances@.len(),
                forall|j: int|
                    0 <= j < i ==> !(self.balances@[j].holder@ == holder@ && self.balances@[j].mint@
                        == mint@),
            decreases self.balances@.len() - i,
        {
            if self.balances[i].holder.same(holder) && self.balances[i].mint.same(mint) {
                return Some(i);
            }
            i = i + 1;
        }
        None
    }

    /// The counter at `mint` keeps its place and fields but for its supply, which
    /// grows by `q`; every other counter stays as it was.
    pub open spec fn supply_grown(pre: Ledger, post: Ledger, mint: Seq<u8>, q: nat) -> bool {
        &&& forall|a: Seq<u8>| #[trigger] post.has_counter(a) == pre.has_counter(a)
        &&& forall|a: Seq<u8>|
            pre.has_counter(a) && a != mint ==> #[trigger] post.counter(a) == pre.counter(a)
        &&& post.counter(mint).address == pre.counter(mint).address
        &&& post.counter(mint).authority == pre.counter(mint).authority
        &&& post.counter(mint).decimals == pre.counter(mint).decimals
        &&& post.counter(mint).supply == pre.counter(mint).supply + q
    }

    /// `holder`'s balance of `mint` grows by `q`, a balance account exists for it,
    /// and nothing else changes but the supply of `mint`.
    pub open spec fn credited(pre: Ledger, post: Ledger, holder: Seq<u8>, mint: Seq<u8>, q: nat) -> bool {
        &&& post.metadata@ == pre.metadata@
        &&& Ledger::supply_grown(pre, post, mint, q)
        &&& forall|h: Seq<u8>, m: Seq<u8>|
            #[trigger] post.balance(h, m) == pre.balance(h, m) + (if h == holder && m == mint {
                q
            } else {
                0
            })
        &&& forall|h: Seq<u8>, m: Seq<u8>|
            #[trigger] post.has_balance(h, m) == (pre.has_balance(h, m) || (h == holder && m == mint))
    }

    /// Creates the supply counter at `address`, with no supply yet; the ledger
    /// refuses an address that already holds one.
    pub fn create_supply_counter(&mut self, address: &Address, authority: &Address, decimals: u8) -> (r:
        Result<(), MintError>)
        requires
            old(self).wf(),
        ensures
            final(self).wf(),
            r == (if old(self).has_counter(address@) {
                Err(MintError::AlreadyInitialized)
            } else {
                Ok(())
            }),
            r is Err ==> *final(self) == *old(self),
            r is Ok ==> final(self).counters@ == old(self).counters@.push(
                SupplyCounter { address: *address, authority: *authority, decimals, supply: 0 },
            ),
            final(self).metadata@ == old(self).metadata@,
            final(self).balances@ == old(self).balances@,
    {
        if self.find_counter(address).is_some() {
            return Err(MintError::AlreadyInitialized);
        }
        let c = SupplyCounter { address: *address, authority: *authority, decimals, supply: 0 };
        proof {
            let pre = *old(self);
            assert forall|i: int| 0 <= i < pre.balances@.len() implies pre.balances@[i].mint@ != address@ by {
                assert(pre.has_counter(pre.balances@[i].mint@));
            }
            lemma_sum_none(pre.balances@, None, address@);
        }
        let ghost pre = *self;
        self.counters.push(c);
        proof {
            let post = *self;
            assert forall|a: Seq<u8>| pre.has_counter(a) implies #[trigger] post.has_counter(a) by {
                let j = choose|j: int| 0 <= j < pre.counters@.len() && pre.counters@[j].address@ == a;
                assert(post.counters@[j] == pre.counters@[j]);
            }
            assert forall|i: int| 0 <= i < post.balances@.len() implies #[trigger] post.has_counter(
                post.balances@[i].mint@,
            ) by {
                assert(pre.has_counter(pre.balances@[i].mint@));
            }
            assert forall|i: int| 0 <= i < post.counters@.len() implies post.counters@[i].supply as nat
                == post.held(#[trigger] post.counters@[i].address@) by {
                if i < pre.counters@.len() {
                    assert(post.counters@[i] == pre.counters@[i]);
                }
            }
        }
        Ok(())
    }

    /// Attaches a metadata record at `address` to the counter at `mint`. The
    /// metadata program asks that `token` sign for the counter's authority, and
    /// refuses an address that already holds a record.
    pub fn create_metadata(
        &mut self,
        token: &AuthorizationToken,
        address: &Address,
        mint: &Address,
        update_authority: &Address,
        name: String,
        symbol: String,
        uri: String,
    ) -> (r: Result<(), MintError>)
        requires
            old(self).wf(),
        ensures
            final(self).wf(),
            r is Ok <==> (old(self).has_counter(mint@) && created_address_of(
                token.seeds.deep_view(),
                token.program@,
            ) == Some(old(self).counter(mint@).authority@) && !old(self).has_metadata(address@)),
            r is Err ==> r == Err::<(), MintError>(MintError::ExternalProgramFailure) && *final(self)
                == *old(self),
            r is Ok ==> final(self).metadata@.len() == old(self).metadata@.len() + 1
                && final(self).metadata@.drop_last() == old(self).metadata@
                && final(self).metadata@.last().address == *address
                && final(self).metadata@.last().mint == *mint
                && final(self).metadata@.last().update_authority == *update_authority
                && final(self).metadata@.last().name@ == name@
                && final(self).metadata@.last().symbol@ == symbol@
                && final(self).metadata@.last().uri@ == uri@,
            final(self).counters@ == old(self).counters@,
            final(self).balances@ == old(self).balances@,
    {
        let ci = match self.find_counter(mint) {
            Some(i) => i,
            None => return Err(MintError::ExternalProgramFailure),
        };
        if !token.signs_for(&self.counters[ci].authority) {
            return Err(MintError::ExternalProgramFailure);
        }
        if self.find_metadata(address).is_some() {
            return Err(MintError::ExternalProgramFailure);
        }
        let ghost pre = *self;
        self.metadata.push(
            MetadataRecord {
                address: *address,
                mint: *mint,
                update_authority: *update_authority,
                name,
                symbol,
                uri,
            },
        );
        proof {
            let post = *self;
            assert(post.metadata@.drop_last() =~= pre.metadata@);
            assert forall|i: int| 0 <= i < post.balances@.len() implies #[trigger] post.has_counter(
                post.balances@[i].mint@,
            ) by {
                let m = pre.balances@[i].mint@;
                assert(pre.has_counter(m));
                let j = choose|j: int| 0 <= j < pre.counters@.len() && pre.counters@[j].address@ == m;
                assert(post.counters@[j] == pre.counters@[j]);
            }
        }
        Ok(())
    }

    /// Creates `holder`'s balance account of `mint`, empty, unless it exists.
    pub fn create_balance_if_absent(&mut self, holder: &Address, mint: &Address)
        requires
            old(self).wf(),
            old(self).has_counter(mint@),
        ensures
            final(self).wf(),
            final(self).counters@ == old(self).counters@,
            final(self).metadata@ == old(self).metadata@,
            final(self).has_balance(holder@, mint@),
            forall|h: Seq<u8>, m: Seq<u8>| #[trigger] final(self).balance(h, m) == old(self).balance(h, m),
            forall|h: Seq<u8>, m: Seq<u8>|
                #[trigger] final(self).has_balance(h, m) == (old(self).has_balance(h, m) || (h == holder@
                    && m == mint@)),
    {
        if self.find_balance(holder, mint).is_some() {
            return ;
        }
        let b = BalanceAccount { holder: *holder, mint: *mint, amount: 0 };
        let ghost pre = *self;
        self.balances.push(b);
        proof {
            let post = *self;
            let n = pre.balances@.len() as int;
            assert(post.balances@[n] == b);
            assert forall|h: Seq<u8>, m: Seq<u8>| #[trigger] post.balance(h, m) == pre.balance(h, m) by {
                lemma_sum_push(pre.balances@, b, Some(h), m);
            }
            assert forall|m: Seq<u8>| #[trigger] post.held(m) == pre.held(m) by {
                lemma_sum_push(pre.balances@, b, None, m);
            }
            assert forall|h: Seq<u8>, m: Seq<u8>|
                #[trigger] post.has_balance(h, m) == (pre.has_balance(h, m) || (h == holder@ && m
                    == mint@)) by {
                if pre.has_balance(h, m) {
                    let j = choose|j: int|
                        0 <= j < pre.balances@.len() && pre.balances@[j].holder@ == h
                            && pre.balances@[j].mint@ == m;
                    assert(post.balances@[j] == pre.balances@[j]);
                }
            }
            assert forall|i: int| 0 <= i < post.balances@.len() implies #[trigger] post.has_counter(
                post.balances@[i].mint@,
            ) by {
                if i < n {
                    assert(pre.has_counter(pre.balances@[i].mint@));
                }
            }
            assert forall|i: int| 0 <= i < post.counters@.len() implies post.counters@[i].supply as nat
                == post.held(#[trigger] post.counters@[i].address@) by {
                assert(post.held(post.counters@[i].address@) == pre.held(pre.counters@[i].address@));
            }
        }
    }

    /// Credits `q` to `holder`'s balance of `mint` and adds it to the supply. The
    /// ledger asks that `token` sign for the counter's authority, and refuses a
    /// supply that would pass the largest `u64`.
    pub fn increase_supply(&mut self, token: &AuthorizationToken, mint: &Address, holder: &Address, q: u64) -> (r:
        Result<(), MintError>)
        requires
            old(self).wf(),
            old(self).has_counter(mint@),
            old(self).has_balance(holder@, mint@),
        ensures
            final(self).wf(),
            r is Ok <==> (created_address_of(token.seeds.deep_view(), token.program@) == Some(
                old(self).counter(mint@).authority@,
            ) && old(self).counter(mint@).supply + q <= u64::MAX),
            r is Err ==> r == Err::<(), MintError>(MintError::ExternalProgramFailure) && *final(self)
                == *old(self),
            r is Ok ==> Ledger::credited(*old(self), *final(self), holder@, mint@, q as nat),
    {
        let ci = match self.find_counter(mint) {
            Some(i) => i,
            None => return Err(MintError::ExternalProgramFailure),
        };
        let c = self.counters[ci];
        if !token.signs_for(&c.authority) {
            return Err(MintError::ExternalProgramFailure);
        }
        if q > u64::MAX - c.supply {
            return Err(MintError::ExternalProgramFailure);
        }
        let bi = match self.find_balance(holder, mint) {
            Some(i) => i,
            None => return Err(MintError::ExternalProgramFailure),
        };
        let b = self.balances[bi];
        proof {
            lemma_sum_member(self.balances@, bi as int, None, mint@);
        }
        let nb = BalanceAccount { holder: b.holder, mint: b.mint, amount: b.amount + q };
        let nc = SupplyCounter {
            address: c.address,
            authority: c.authority,
            decimals: c.decimals,
            supply: c.supply + q,
        };
        let ghost pre = *self;
        self.balances.set(bi, nb);
        self.counters.set(ci, nc);
        proof {
            let post = *self;
            assert forall|h: Seq<u8>, m: Seq<u8>|
                #[trigger] post.balance(h, m) == pre.balance(h, m) + (if h == holder@ && m == mint@ {
                    q as nat
                } else {
                    0
                }) by {
                lemma_sum_update(pre.balances@, bi as int, nb, Some(h), m);
            }
            assert forall|m: Seq<u8>|
                #[trigger] post.held(m) == pre.held(m) + (if m == mint@ {
                    q as nat
                } else {
                    0
                }) by {
                lemma_sum_update(pre.balances@, bi as int, nb, None, m);
            }
            assert forall|h: Seq<u8>, m: Seq<u8>|
                #[trigger] post.has_balance(h, m) == pre.has_balance(h, m) by {
                if pre.has_balance(h, m) {
                    let j = choose|j: int|
                        0 <= j < pre.balances@.len() && pre.balances@[j].holder@ == h
                            && pre.balances@[j].mint@ == m;
                    assert(post.balances@[j].holder == pre.balances@[j].holder);
                }
                if post.has_balance(h, m) {
                    let j = choose|j: int|
                        0 <= j < post.balances@.len() && post.balances@[j].holder@ == h
                            && post.balances@[j].mint@ == m;
                    assert(post.balances@[j].holder == pre.balances@[j].holder);
                }
            }
            assert forall|a: Seq<u8>| #[trigger] post.has_counter(a) == pre.has_counter(a) by {
                if pre.has_counter(a) {
                    let j = choose|j: int| 0 <= j < pre.counters@.len() && pre.counters@[j].address@ == a;
                    assert(post.counters@[j].address == pre.counters@[j].address);
                }
                if post.has_counter(a) {
                    let j = choose|j: int| 0 <= j < post.counters@.len() && post.counters@[j].address@ == a;
                    assert(post.counters@[j].address == pre.counters@[j].address);
                }
            }
            assert(post.unique_counters()) by {
                assert forall|i: int, j: int| 0 <= i < j < post.counters@.len() implies post.counters@[i].address@
                    != post.counters@[j].address@ by {
                    assert(post.counters@[i].address == pre.counters@[i].address);
                    assert(post.counters@[j].address == pre.counters@[j].address);
                }
            }
            assert forall|i: int, j: int| 0 <= i < j < post.balances@.len() implies !(
            post.balances@[i].holder@ == post.balances@[j].holder@ && post.balances@[i].mint@
                == post.balances@[j].mint@) by {
                assert(post.balances@[i].holder == pre.balances@[i].holder);
                assert(post.balances@[j].holder == pre.balances@[j].holder);
                assert(post.balances@[i].mint == pre.balances@[i].mint);
                assert(post.balances@[j].mint == pre.balances@[j].mint);
            }
            assert forall|i: int| 0 <= i < post.balances@.len() implies #[trigger] post.has_counter(
                post.balances@[i].mint@,
            ) by {
                assert(post.balances@[i].mint == pre.balances@[i].mint);
                assert(pre.has_counter(pre.balances@[i].mint@));
                assert(post.has_counter(pre.balances@[i].mint@) == pre.has_counter(pre.balances@[i].mint@));
            }
            assert forall|i: int| 0 <= i < post.counters@.len() implies post.counters@[i].supply as nat
                == post.held(#[trigger] post.counters@[i].address@) by {
                assert(post.counters@[i].address == pre.counters@[i].address);
                assert(pre.counters@[i].supply as nat == pre.held(pre.counters@[i].address@));
                if i != ci {
                    assert(pre.counters@[i].address@ != mint@);
                }
            }
            pre.lemma_counter_at(ci as int);
            post.lemma_counter_at(ci as int);
            assert forall|a: Seq<u8>| pre.has_counter(a) && a != mint@ implies #[trigger] post.counter(a)
                == pre.counter(a) by {
                let j = choose|j: int| 0 <= j < pre.counters@.len() && pre.counters@[j].address@ == a;
                pre.lemma_counter_at(j);
                assert(post.counters@[j].address == pre.counters@[j].address);
                post.lemma_counter_at(j);
            }
        }
        Ok(())
    }
}

} // verus!
