//! The derived mint authority: an address computed from the seed label "mint"
//! and the program id, with no private key, and the authorization token that
//! stands for its signature.
use vstd::prelude::*;
use anchor_lang::prelude::Pubkey;
use crate::address::Address;

verus! {

/// The address that `Pubkey::try_find_program_address` finds for these seeds
/// under this program, with its bump, or `None` where no bump gives one.
pub uninterp spec fn program_address_of(seeds: Seq<Seq<u8>>, program: Seq<u8>) -> Option<(Seq<u8>, u8)>;

/// The address that `Pubkey::create_program_address` makes of these seeds under
/// this program, or `None` where it refuses them.
pub uninterp spec fn created_address_of(seeds: Seq<Seq<u8>>, program: Seq<u8>) -> Option<Seq<u8>>;

/// Relies on `Pubkey::try_find_program_address`: a deterministic function of the
/// seeds and the program id, which returns the first bump (counting down from
/// 255) for which `create_program_address` succeeds on the seeds followed by that
/// bump, together with the address it made.
#[verifier::external_body]
fn find_program_address(seeds: &Vec<Vec<u8>>, program: &Address) -> (r: Option<(Address, u8)>)
    ensures
        program_address_of(seeds.deep_view(), program@) == match r {
            Some((a, b)) => Some((a@, b)),
            None => None::<(Seq<u8>, u8)>,
        },
        match r {
            Some((a, b)) => created_address_of(seeds.deep_view().push(seq![b]), program@) == Some(a@),
            None => true,
        },
{
    let s: Vec<&[u8]> = seeds.iter().map(|x| x.as_slice()).collect();
    Pubkey::try_find_program_address(&s, &Pubkey::new_from_array(program.bytes))
        .map(|(a, b)| (Address { bytes: a.to_bytes() }, b))
}

/// Relies on `Pubkey::create_program_address`: a deterministic function of the
/// seeds and the program id, which either makes an address or refuses them.
#[verifier::external_body]
fn create_program_address(seeds: &Vec<Vec<u8>>, program: &Address) -> (r: Option<Address>)
    ensures
        created_address_of(seeds.deep_view(), program@) == match r {
            Some(a) => Some(a@),
            None => None::<Seq<u8>>,
        },
{
    let s: Vec<&[u8]> = seeds.iter().map(|x| x.as_slice()).collect();
    Pubkey::create_program_address(&s, &Pubkey::new_from_array(program.bytes))
        .ok()
        .map(|a| Address { bytes: a.to_bytes() })
}

/// The seed label of the mint authority: the bytes of "mint".
pub open spec fn mint_seed() -> Seq<u8> {
    seq![109u8, 105u8, 110u8, 116u8]
}

/// The seeds of the mint authority before its bump.
pub open spec fn authority_seeds() -> Seq<Seq<u8>> {
    seq![mint_seed()]
}

/// The derived mint authority of a program: its address and bump.
pub open spec fn derived_authority(program: Seq<u8>) -> Option<(Seq<u8>, u8)> {
    program_address_of(authority_seeds(), program)
}

/// The seeds, bump included, that stand for the authority's signature.
pub open spec fn signer_seeds(bump: u8) -> Seq<Seq<u8>> {
    seq![mint_seed(), seq![bump]]
}

/// The mint authority: an address with no private key, and the bump that made it.
#[derive(Clone, Copy, Debug)]
pub struct Authority {
    pub address: Address,
    pub bump: u8,
}

/// What a program presents in place of a signature: the seeds that derive the
/// signing address, and the program that vouches for them.
#[derive(Clone, Debug)]
pub struct AuthorizationToken {
    pub seeds: Vec<Vec<u8>>,
    pub program: Address,
}

impl AuthorizationToken {
    /// Whether the token proves control of `signer`: its seeds, under its
    /// program, derive that address.
    pub fn signs_for(&self, signer: &Address) -> (r: bool)
        ensures
            r == (created_address_of(self.seeds.deep_view(), self.program@) == Some(signer@)),
    {
        match create_program_address(&self.seeds, &self.program) {
            Some(a) => a.same(signer),
            None => false,
        }
    }
}

/// Whether an authorization token is the one that `authorization` builds for
/// this bump and program.
pub open spec fn is_authorization(t: AuthorizationToken, program: Seq<u8>, bump: u8) -> bool {
    t.seeds.deep_view() == signer_seeds(bump) && t.program@ == program
}

fn seed_label() -> (r: Vec<u8>)
    ensures
        r@ == mint_seed(),
        r.deep_view() == mint_seed(),
{
    let r: Vec<u8> = vec![109u8, 105u8, 110u8, 116u8];
    assert(r.deep_view() =~= r@);
    r
}

/// Whether `r` is what deriving the mint authority of `program` gives.
pub open spec fn derivation_outcome(program: Seq<u8>, r: Option<Authority>) -> bool {
    derived_authority(program) == match r {
        Some(a) => Some((a.address@, a.bump)),
        None => None::<(Seq<u8>, u8)>,
    }
}

/// Deriving the authority is a function of the program alone: two derivations
/// for one program give the same address and bump, or both find none.
pub proof fn lemma_derivation_deterministic(program: Seq<u8>, r1: Option<Authority>, r2: Option<Authority>)
    requires
        derivation_outcome(program, r1),
        derivation_outcome(program, r2),
    ensures
        r1 is Some <==> r2 is Some,
        r1 is Some ==> r1->0.address@ == r2->0.address@ && r1->0.bump == r2->0.bump,
{
}

/// Derives the mint authority of `program` from the fixed seed label.
pub fn derive_authority(program: &Address) -> (r: Option<Authority>)
    ensures
        derivation_outcome(program@, r),
        match r {
            Some(a) => created_address_of(signer_seeds(a.bump), program@) == Some(a.address@),
            None => true,
        },
{
    let seeds: Vec<Vec<u8>> = vec![seed_label()];
    assert(seeds.deep_view() =~= authority_seeds());
    match find_program_address(&seeds, program) {
        Some((address, bump)) => {
            assert(seeds.deep_view().push(seq![bump]) =~= signer_seeds(bump));
            Some(Authority { address, bump })
        },
        None => None,
    }
}

/// Builds the token with which the program signs for its authority.
pub fn authorization(program: &Address, bump: u8) -> (t: AuthorizationToken)
    ensures
        is_authorization(t, program@, bump),
{
    let b: Vec<u8> = vec![bump];
    assert(b.deep_view() =~= seq![bump]);
    let seeds: Vec<Vec<u8>> = vec![seed_label(), b];
    assert(seeds.deep_view() =~= signer_seeds(bump));
    AuthorizationToken { seeds, program: *program }
}

} // verus!
