//! Program-derived addresses: deterministic addresses that lie off the
//! signing curve, so that only the deriving program can sign for them.
use vstd::prelude::*;

use solana_program::pubkey::Pubkey;

use crate::address::Address;

verus! {

/// What the bump search of the runtime yields for these seeds under this
/// program: the first off-curve address found from bump 255 downwards, with
/// its bump.
pub uninterp spec fn program_address_search(seeds: Seq<Seq<u8>>, program: Seq<u8>) -> Option<(Seq<u8>, u8)>;

/// The address that exactly these seeds derive under this program, where it
/// lies off the curve and the seeds are within the runtime's limits.
pub uninterp spec fn program_address(seeds: Seq<Seq<u8>>, program: Seq<u8>) -> Option<Seq<u8>>;

pub open spec fn seeds_view(seeds: Seq<Vec<u8>>) -> Seq<Seq<u8>> {
    seeds.map_values(|s: Vec<u8>| s@)
}

pub open spec fn found_view(r: Option<(Address, u8)>) -> Option<(Seq<u8>, u8)> {
    match r {
        Some((a, b)) => Some((a@, b)),
        None => None,
    }
}

pub open spec fn address_opt_view(r: Option<Address>) -> Option<Seq<u8>> {
    match r {
        Some(a) => Some(a@),
        None => None,
    }
}

/// The seed list that signs for a derived authority: the seed, then the bump.
pub open spec fn signer_seeds_of(seed: Seq<u8>, bump: u8) -> Seq<Seq<u8>> {
    seq![seed, seq![bump]]
}

/// The address that `derive_authority` yields for a seed under a program.
pub open spec fn authority_of(seed: Seq<u8>, program: Seq<u8>) -> Option<(Seq<u8>, u8)> {
    program_address_search(seq![seed], program)
}

/// The associated token account of `owner` for `mint`: the address derived
/// from the owner, the token program and the mint under the associated-token
/// program.
pub open spec fn associated_address_of(
    owner: Seq<u8>,
    mint: Seq<u8>,
    token_program: Seq<u8>,
    associated_program: Seq<u8>,
) -> Option<Seq<u8>> {
    match program_address_search(seq![owner, token_program, mint], associated_program) {
        Some((a, _)) => Some(a),
        None => None,
    }
}

/// Relies on solana_program's `Pubkey::try_find_program_address`: its result
/// depends on the seeds and the program alone, and where it finds an address
/// with some bump, `Pubkey::create_program_address` on the seeds followed by
/// that bump returned that address.
#[verifier::external_body]
fn try_find_program_address(seeds: &Vec<Vec<u8>>, program: &Address) -> (r: Option<(Address, u8)>)
    ensures
        found_view(r) == program_address_search(seeds_view(seeds@), program@),
        r matches Some((a, b)) ==> program_address(seeds_view(seeds@).push(seq![b]), program@)
            == Some(a@),
{
    let refs: Vec<&[u8]> = seeds.iter().map(|s| s.as_slice()).collect();
    Pubkey::try_find_program_address(&refs, &Pubkey::new_from_array(program.bytes)).map(
        |(p, b)| (Address::new(p.to_bytes()), b),
    )
}

/// Relies on solana_program's `Pubkey::create_program_address`: the address
/// derived from exactly these seeds, which depends on the seeds and the
/// program alone; its error is taken as no address.
#[verifier::external_body]
fn create_program_address(seeds: &Vec<Vec<u8>>, program: &Address) -> (r: Option<Address>)
    ensures
        address_opt_view(r) == program_address(seeds_view(seeds@), program@),
{
    let refs: Vec<&[u8]> = seeds.iter().map(|s| s.as_slice()).collect();
    Pubkey::create_program_address(&refs, &Pubkey::new_from_array(program.bytes)).ok().map(
        |p| Address::new(p.to_bytes()),
    )
}

/// Derives the program-owned authority for a seed: an off-curve address and
/// the bump that makes it so. The same seed and program always give the same
/// result, and the seed followed by the bump derives that address again.
pub fn derive_authority(seed: &Vec<u8>, program_id: &Address) -> (r: Option<(Address, u8)>)
    ensures
        found_view(r) == authority_of(seed@, program_id@),
        r matches Some((a, b)) ==> program_address(signer_seeds_of(seed@, b), program_id@)
            == Some(a@),
{
    let mut seeds: Vec<Vec<u8>> = Vec::new();
    seeds.push(seed.clone());
    proof {
        assert(seeds_view(seeds@) =~= seq![seed@]);
    }
    let r = try_find_program_address(&seeds, program_id);
    proof {
        if let Some((a, b)) = r {
            assert(seeds_view(seeds@).push(seq![b]) =~= signer_seeds_of(seed@, b));
        }
    }
    r
}

/// The seed list that signs for the authority of `seed` with `bump`.
pub fn signer_seeds(seed: &Vec<u8>, bump: u8) -> (r: Vec<Vec<u8>>)
    ensures
        seeds_view(r@) == signer_seeds_of(seed@, bump),
{
    let mut r: Vec<Vec<u8>> = Vec::new();
    r.push(seed.clone());
    let mut b: Vec<u8> = Vec::new();
    b.push(bump);
    r.push(b);
    proof {
        assert(seeds_view(r@) =~= signer_seeds_of(seed@, bump));
    }
    r
}

/// Whether the seeds presented by a signed invocation derive `authority`
/// under `program_id`: the runtime's check for a program's signature.
pub fn signs_for(seeds: &Vec<Vec<u8>>, program_id: &Address, authority: &Address) -> (r: bool)
    ensures
        r == (program_address(seeds_view(seeds@), program_id@) == Some(authority@)),
{
    match create_program_address(seeds, program_id) {
        Some(a) => a.same(authority),
        None => false,
    }
}

/// The associated token account address of `owner` for `mint`. It is
/// derived through the search that never panics, where the associated-token
/// program's own helper panics if no bump is found.
pub fn associated_token_address(
    owner: &Address,
    mint: &Address,
    token_program: &Address,
    associated_program: &Address,
) -> (r: Option<Address>)
    ensures
        address_opt_view(r) == associated_address_of(
            owner@,
            mint@,
            token_program@,
            associated_program@,
        ),
{
    let mut seeds: Vec<Vec<u8>> = Vec::new();
    seeds.push(owner.to_seed());
    seeds.push(token_program.to_seed());
    seeds.push(mint.to_seed());
    proof {
        assert(seeds_view(seeds@) =~= seq![owner@, token_program@, mint@]);
    }
    match try_find_program_address(&seeds, associated_program) {
        Some((a, _)) => Some(a),
        None => None,
    }
}

} // verus!
