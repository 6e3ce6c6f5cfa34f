//! The two operations of the mint: creating the token with its metadata, and
//! issuing supply to a holder, both acting for the derived authority.
use vstd::prelude::*;
use crate::address::Address;
use crate::authority::{
    authorization, created_address_of, derive_authority, derived_authority, signer_seeds, Authority,
};
use crate::error::MintError;
use crate::ledger::{lemma_sum_absent, Ledger};

verus! {

/// What a caller gives to create the token.
#[derive(Clone, Debug)]
pub struct InitTokenParams {
    /// The name of the token.
    pub name: String,
    /// The symbol of the token.
    pub symbol: String,
    /// Where the token's off-chain metadata is found.
    pub uri: String,
    /// The number of decimal places of the token.
    pub decimals: u8,
}

/// The accounts that creating the token names.
#[derive(Clone, Copy, Debug)]
pub struct InitiateToken {
    /// Where the metadata record is to be created.
    pub metadata: Address,
    /// The supply counter to create; it must be the derived authority.
    pub mint: Address,
    /// Who pays for the new accounts.
    pub payer: Address,
}

/// The accounts that issuing names.
#[derive(Clone, Copy, Debug)]
pub struct MintTokens {
    /// The supply counter; it must be the derived authority and record itself as
    /// its authority.
    pub mint: Address,
    /// The holder whose balance is credited.
    pub destination: Address,
    /// Who pays for a balance account that has to be created.
    pub payer: Address,
}

/// What creating the token returns on a ledger in state `l`, acting as the
/// authority at `authority`.
pub open spec fn bootstrap_outcome(l: Ledger, authority: Seq<u8>, accounts: InitiateToken) -> Result<(), MintError> {
    if accounts.mint@ != authority {
        Err(MintError::AuthorityMismatch)
    } else if l.has_counter(authority) {
        Err(MintError::AlreadyInitialized)
    } else if l.has_metadata(accounts.metadata@) {
        Err(MintError::ExternalProgramFailure)
    } else {
        Ok(())
    }
}

/// What creating the token returns on a ledger in state `l`.
pub open spec fn bootstrap_result(l: Ledger, program: Seq<u8>, accounts: InitiateToken) -> Result<(), MintError> {
    match derived_authority(program) {
        None => Err(MintError::DerivationExhausted),
        Some((a, _)) => bootstrap_outcome(l, a, accounts),
    }
}

/// What issuing `q` returns on a ledger in state `l`, acting as the authority
/// at `authority`.
pub open spec fn issue_outcome(l: Ledger, authority: Seq<u8>, accounts: MintTokens, q: nat) -> Result<(), MintError> {
    if accounts.mint@ != authority {
        Err(MintError::AuthorityMismatch)
    } else if !l.has_counter(authority) {
        Err(MintError::ExternalProgramFailure)
    } else if l.counter(authority).authority@ != authority {
        Err(MintError::AuthorityMismatch)
    } else if l.counter(authority).supply + q > u64::MAX {
        Err(MintError::ExternalProgramFailure)
    } else {
        Ok(())
    }
}

/// What issuing `q` returns on a ledger in state `l`.
pub open spec fn issue_result(l: Ledger, program: Seq<u8>, accounts: MintTokens, q: nat) -> Result<(), MintError> {
    match derived_authority(program) {
        None => Err(MintError::DerivationExhausted),
        Some((a, _)) => issue_outcome(l, a, accounts, q),
    }
}

/// The state after creating the token: one new supply counter at the mint,
/// recording itself as authority and the given decimals, with no supply, and one
/// new metadata record for it whose update authority is the mint too.
pub open spec fn bootstrapped(pre: Ledger, post: Ledger, accounts: InitiateToken, params: InitTokenParams) -> bool {
    &&& post.counters@.len() == pre.counters@.len() + 1
    &&& post.counters@.drop_last() == pre.counters@
    &&& post.counters@.last().address == accounts.mint
    &&& post.counters@.last().authority == accounts.mint
    &&& post.counters@.last().decimals == params.decimals
    &&& post.counters@.last().supply == 0
    &&& post.metadata@.len() == pre.metadata@.len() + 1
    &&& post.metadata@.drop_last() == pre.metadata@
    &&& post.metadata@.last().address == accounts.metadata
    &&& post.metadata@.last().mint == accounts.mint
    &&& post.metadata@.last().update_authority == accounts.mint
    &&& post.metadata@.last().name@ == params.name@
    &&& post.metadata@.last().symbol@ == params.symbol@
    &&& post.metadata@.last().uri@ == params.uri@
    &&& post.balances@ == pre.balances@
}

/// Creates the supply counter at the derived authority, with itself as its
/// authority and the given decimals, then attaches the metadata record, whose
/// update authority is the derived authority too, signing for it with the
/// authority's seeds. Either both accounts are created or nothing changes.
pub fn initiate_token(
    ledger: &mut Ledger,
    program: &Address,
    accounts: &InitiateToken,
    params: InitTokenParams,
) -> (r: Result<(), MintError>)
    requires
        old(ledger).wf(),
    ensures
        final(ledger).wf(),
        r == bootstrap_result(*old(ledger), program@, *accounts),
        r is Err ==> *final(ledger) == *old(ledger),
        r is Ok ==> bootstrapped(*old(ledger), *final(ledger), *accounts, params),
{
    match derive_authority(program) {
        Some(auth) => initiate_token_as(ledger, program, &auth, accounts, params),
        None => Err(MintError::DerivationExhausted),
    }
}

/// Creating the token as `auth`, an authority of `program` whose seeds sign for
/// its address.
pub fn initiate_token_as(
    ledger: &mut Ledger,
    program: &Address,
    auth: &Authority,
    accounts: &InitiateToken,
    params: InitTokenParams,
) -> (r: Result<(), MintError>)
    requires
        old(ledger).wf(),
        created_address_of(signer_seeds(auth.bump), program@) == Some(auth.address@),
    ensures
        final(ledger).wf(),
        r == bootstrap_outcome(*old(ledger), auth.address@, *accounts),
        r is Err ==> *final(ledger) == *old(ledger),
        r is Ok ==> bootstrapped(*old(ledger), *final(ledger), *accounts, params),
{
    if !accounts.mint.same(&auth.address) {
        return Err(MintError::AuthorityMismatch);
    }
    if ledger.find_counter(&auth.address).is_some() {
        return Err(MintError::AlreadyInitialized);
    }
    if ledger.find_metadata(&accounts.metadata).is_some() {
        return Err(MintError::ExternalProgramFailure);
    }
    let created = ledger.create_supply_counter(&accounts.mint, &accounts.mint, params.decimals);
    if created.is_err() {
        return created;
    }
    proof {
        let n = old(ledger).counters@.len() as int;
        assert(ledger.counters@[n].address@ == auth.address@);
        ledger.lemma_counter_at(n);
        assert forall|a: Seq<u8>| ledger.has_metadata(a) implies old(ledger).has_metadata(a) by {
            let j = choose|j: int| 0 <= j < ledger.metadata@.len() && ledger.metadata@[j].address@ == a;
            assert(old(ledger).metadata@[j] == ledger.metadata@[j]);
        }
    }
    let token = authorization(program, auth.bump);
    let ghost counters = ledger.counters@;
    let r = ledger.create_metadata(
        &token,
        &accounts.metadata,
        &accounts.mint,
        &accounts.mint,
        params.name,
        params.symbol,
        params.uri,
    );
    proof {
        assert(counters.drop_last() =~= old(ledger).counters@);
    }
    match r {
        Ok(_) => Ok(()),
        Err(e) => Err(e),
    }
}

/// Credits `quantity` to the destination's balance of the supply counter,
/// creating the balance account where it is missing, and adds it to the supply,
/// signing for the derived authority with its seeds. The counter must be the
/// derived authority and record it as its authority. Either the credit is made
/// or nothing changes.
pub fn mint_tokens(ledger: &mut Ledger, program: &Address, accounts: &MintTokens, quantity: u64) -> (r: Result<
    (),
    MintError,
>)
    requires
        old(ledger).wf(),
    ensures
        final(ledger).wf(),
        r == issue_result(*old(ledger), program@, *accounts, quantity as nat),
        r is Err ==> *final(ledger) == *old(ledger),
        r is Ok ==> Ledger::credited(
            *old(ledger),
            *final(ledger),
            accounts.destination@,
            accounts.mint@,
            quantity as nat,
        ),
{
    match derive_authority(program) {
        Some(auth) => mint_tokens_as(ledger, program, &auth, accounts, quantity),
        None => Err(MintError::DerivationExhausted),
    }
}

/// Issuing as `auth`, an authority of `program` whose seeds sign for its address.
pub fn mint_tokens_as(
    ledger: &mut Ledger,
    program: &Address,
    auth: &Authority,
    accounts: &MintTokens,
    quantity: u64,
) -> (r: Result<(), MintError>)
    requires
        old(ledger).wf(),
        created_address_of(signer_seeds(auth.bump), program@) == Some(auth.address@),
    ensures
        final(ledger).wf(),
        r == issue_outcome(*old(ledger), auth.address@, *accounts, quantity as nat),
        r is Err ==> *final(ledger) == *old(ledger),
        r is Ok ==> Ledger::credited(
            *old(ledger),
            *final(ledger),
            accounts.destination@,
            accounts.mint@,
            quantity as nat,
        ),
{
    if !accounts.mint.same(&auth.address) {
        return Err(MintError::AuthorityMismatch);
    }
    let ci = match ledger.find_counter(&accounts.mint) {
        Some(i) => i,
        None => return Err(MintError::ExternalProgramFailure),
    };
    if !ledger.counters[ci].authority.same(&auth.address) {
        return Err(MintError::AuthorityMismatch);
    }
    if quantity > u64::MAX - ledger.counters[ci].supply {
        return Err(MintError::ExternalProgramFailure);
    }
    let ghost pre = *ledger;
    ledger.create_balance_if_absent(&accounts.destination, &accounts.mint);
    let ghost mid = *ledger;
    let token = authorization(program, auth.bump);
    let r = ledger.increase_supply(&token, &accounts.mint, &accounts.destination, quantity);
    proof {
        assert(mid.counters@ == pre.counters@);
        assert forall|a: Seq<u8>| #[trigger] mid.has_counter(a) == pre.has_counter(a) by {}
        assert forall|a: Seq<u8>| #[trigger] mid.counter(a) == pre.counter(a) by {}
    }
    match r {
        Ok(_) => Ok(()),
        Err(e) => Err(e),
    }
}

/// Creating the token succeeds once: a second call on the ledger that the
/// first left, with the same accounts, fails because the counter exists.
pub proof fn lemma_bootstrap_once(
    l0: Ledger,
    l1: Ledger,
    program: Seq<u8>,
    accounts: InitiateToken,
    params: InitTokenParams,
)
    requires
        l0.wf(),
        bootstrap_result(l0, program, accounts) is Ok,
        bootstrapped(l0, l1, accounts, params),
    ensures
        bootstrap_result(l1, program, accounts) == Err::<(), MintError>(MintError::AlreadyInitialized),
{
    let n = l1.counters@.len() - 1;
    assert(l1.counters@[n].address@ == accounts.mint@);
}

/// Issuing against a supply counter that is not the derived authority, or that
/// records another authority, fails with `AuthorityMismatch`.
pub proof fn lemma_mismatch_rejected(l: Ledger, program: Seq<u8>, accounts: MintTokens, q: nat)
    requires
        derived_authority(program) is Some,
        accounts.mint@ != (derived_authority(program)->0).0 || (l.has_counter(accounts.mint@)
            && l.counter(accounts.mint@).authority@ != accounts.mint@),
    ensures
        issue_result(l, program, accounts, q) == Err::<(), MintError>(MintError::AuthorityMismatch),
{
}

/// Issuing `q1` and then `q2` to one holder credits `q1 + q2` to its balance
/// and to the supply.
pub proof fn lemma_issue_additive(
    l0: Ledger,
    l1: Ledger,
    l2: Ledger,
    holder: Seq<u8>,
    mint: Seq<u8>,
    q1: nat,
    q2: nat,
)
    requires
        Ledger::credited(l0, l1, holder, mint, q1),
        Ledger::credited(l1, l2, holder, mint, q2),
    ensures
        l2.balance(holder, mint) == l0.balance(holder, mint) + q1 + q2,
        l2.counter(mint).supply == l0.counter(mint).supply + q1 + q2,
{
    assert(l1.balance(holder, mint) == l0.balance(holder, mint) + q1);
    assert(l2.balance(holder, mint) == l1.balance(holder, mint) + q2);
}

/// Issuing to a holder with no balance account creates one, for that holder and
/// that supply counter, holding exactly the quantity issued.
pub proof fn lemma_issue_creates_balance(l0: Ledger, l1: Ledger, holder: Seq<u8>, mint: Seq<u8>, q: nat)
    requires
        l0.wf(),
        !l0.has_balance(holder, mint),
        Ledger::credited(l0, l1, holder, mint, q),
    ensures
        l1.has_balance(holder, mint),
        l1.balance(holder, mint) == q,
{
    lemma_sum_absent(l0.balances@, holder, mint);
    assert(l1.has_balance(holder, mint) == (l0.has_balance(holder, mint) || true));
    assert(l1.balance(holder, mint) == l0.balance(holder, mint) + q);
}

} // verus!
