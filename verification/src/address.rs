use crate::identity::Identity;
use anchor_lang::prelude::Pubkey;
use anchor_lang::solana_program::pubkey::PubkeyError;
use vstd::prelude::*;

verus! {

/// The error of `Pubkey::create_program_address`, carried through unopened.
#[verifier::external_type_specification]
#[verifier::external_body]
pub struct ExPubkeyError(PubkeyError);

/// What `Pubkey::try_find_program_address` returns for a program and a list of
/// seeds: the derived address with its bump seed, or nothing.
pub uninterp spec fn found_address(program: Seq<u8>, seeds: Seq<Seq<u8>>) -> Option<(Seq<u8>, u8)>;

/// What `Pubkey::create_program_address` returns for a program and a list of
/// seeds: the address, or nothing where it reports an error.
pub uninterp spec fn created_address(program: Seq<u8>, seeds: Seq<Seq<u8>>) -> Option<Seq<u8>>;

/// The byte sequences that a list of seeds holds.
pub open spec fn seed_views(seeds: Seq<Vec<u8>>) -> Seq<Seq<u8>> {
    Seq::new(seeds.len(), |i: int| seeds[i]@)
}

/// Calls `Pubkey::try_find_program_address`.
///
/// Trusted: the result is a function of the program and the seeds alone, and an
/// address found with bump seed `b` is the address that
/// `Pubkey::create_program_address` gives for the same seeds followed by the
/// one-byte seed `b`. Nothing is claimed about which inputs have an address.
#[verifier::external_body]
fn find_program_address(program: &Identity, seeds: &Vec<Vec<u8>>) -> (r: Option<(Identity, u8)>)
    ensures
        match r {
            Some((a, b)) => {
                &&& found_address(program@, seed_views(seeds@)) == Some((a@, b))
                &&& created_address(program@, seed_views(seeds@).push(seq![b])) == Some(a@)
            },
            None => found_address(program@, seed_views(seeds@)) is None,
        },
{
    let parts: Vec<&[u8]> = seeds.iter().map(|s| s.as_slice()).collect();
    match Pubkey::try_find_program_address(&parts, &Pubkey::new_from_array(program.bytes)) {
        Some((a, b)) => Some((Identity { bytes: a.to_bytes() }, b)),
        None => None,
    }
}

/// Calls `Pubkey::create_program_address`.
///
/// Trusted: the result is a function of the program and the seeds alone.
#[verifier::external_body]
fn create_program_address(program: &Identity, seeds: &Vec<Vec<u8>>) -> (r: Result<
    Identity,
    PubkeyError,
>)
    ensures
        match r {
            Ok(a) => created_address(program@, seed_views(seeds@)) == Some(a@),
            Err(_) => created_address(program@, seed_views(seeds@)) is None,
        },
{
    let parts: Vec<&[u8]> = seeds.iter().map(|s| s.as_slice()).collect();
    match Pubkey::create_program_address(&parts, &Pubkey::new_from_array(program.bytes)) {
        Ok(a) => Ok(Identity { bytes: a.to_bytes() }),
        Err(e) => Err(e),
    }
}

/// The little-endian bytes of `n`, `len` of them.
pub open spec fn le_bytes(n: nat, len: nat) -> Seq<u8>
    decreases len,
{
    if len == 0 {
        Seq::empty()
    } else {
        seq![(n % 256) as u8] + le_bytes(n / 256, (len - 1) as nat)
    }
}

/// The fixed first seed of every escrow address: the ASCII bytes of `escrow`.
pub open spec fn escrow_tag() -> Seq<u8> {
    seq![101u8, 115u8, 99u8, 114u8, 111u8, 119u8]
}

/// The seeds from which the address of a maker's trade is derived: the tag,
/// the maker's identity, and the nonce as eight little-endian bytes.
pub open spec fn escrow_seeds(maker: Seq<u8>, nonce: u64) -> Seq<Seq<u8>> {
    seq![escrow_tag(), maker, le_bytes(nonce as nat, 8)]
}

/// The address and derivation proof of the trade that `maker` opens under
/// `nonce`, where the seeds have one.
pub open spec fn escrow_address_of(program: Seq<u8>, maker: Seq<u8>, nonce: u64) -> Option<
    (Seq<u8>, u8),
> {
    found_address(program, escrow_seeds(maker, nonce))
}

/// The address that re-deriving from a record's maker, nonce and stored
/// derivation proof gives, where it gives one.
pub open spec fn rederived_address(program: Seq<u8>, maker: Seq<u8>, nonce: u64, proof: u8) -> Option<
    Seq<u8>,
> {
    created_address(program, escrow_seeds(maker, nonce).push(seq![proof]))
}

/// The eight little-endian bytes of a nonce.
pub fn nonce_bytes(nonce: u64) -> (v: Vec<u8>)
    ensures
        v@ == le_bytes(nonce as nat, 8),
{
    let mut v: Vec<u8> = Vec::new();
    let mut rest: u64 = nonce;
    let mut i: usize = 0;
    while i < 8
        invariant
            i <= 8,
            v@ + le_bytes(rest as nat, (8 - i) as nat) == le_bytes(nonce as nat, 8),
        decreases 8 - i,
    {
        let ghost before = v@;
        v.push((rest % 256) as u8);
        proof {
            let tail = le_bytes((rest / 256) as nat, (8 - i - 1) as nat);
            assert(le_bytes(rest as nat, (8 - i) as nat) == seq![(rest as nat % 256) as u8] + tail);
            assert(v@ + tail =~= before + (seq![(rest as nat % 256) as u8] + tail));
        }
        rest = rest / 256;
        i += 1;
    }
    assert(v@ + le_bytes(rest as nat, 0) =~= v@);
    v
}

/// The tag seed as bytes.
fn tag_bytes() -> (v: Vec<u8>)
    ensures
        v@ == escrow_tag(),
{
    let mut v: Vec<u8> = Vec::new();
    v.push(101u8);
    v.push(115u8);
    v.push(99u8);
    v.push(114u8);
    v.push(111u8);
    v.push(119u8);
    assert(v@ =~= escrow_tag());
    v
}

/// The three seeds of a maker's trade, as bytes.
fn seed_list(maker: &Identity, nonce: u64) -> (seeds: Vec<Vec<u8>>)
    ensures
        seed_views(seeds@) == escrow_seeds(maker@, nonce),
{
    let mut seeds: Vec<Vec<u8>> = Vec::new();
    seeds.push(tag_bytes());
    seeds.push(maker.to_vec());
    seeds.push(nonce_bytes(nonce));
    assert(seed_views(seeds@) =~= escrow_seeds(maker@, nonce));
    seeds
}

/// Derives the storage address of the trade that `maker` opens under `nonce`,
/// together with the derivation proof that later re-derives it.
///
/// An address that is returned passes `rederive_address` with its proof.
pub fn escrow_address(program: &Identity, maker: &Identity, nonce: u64) -> (r: Option<
    (Identity, u8),
>)
    ensures
        match r {
            Some((a, b)) => {
                &&& escrow_address_of(program@, maker@, nonce) == Some((a@, b))
                &&& rederived_address(program@, maker@, nonce, b) == Some(a@)
            },
            None => escrow_address_of(program@, maker@, nonce) is None,
        },
{
    let seeds = seed_list(maker, nonce);
    find_program_address(program, &seeds)
}

/// Re-derives the address of a trade from its maker, nonce and stored
/// derivation proof. This is the check behind every privileged operation on a
/// vault: only the address that comes out may authorize it.
pub fn rederive_address(program: &Identity, maker: &Identity, nonce: u64, proof: u8) -> (r: Option<
    Identity,
>)
    ensures
        match r {
            Some(a) => rederived_address(program@, maker@, nonce, proof) == Some(a@),
            None => rederived_address(program@, maker@, nonce, proof) is None,
        },
{
    let mut seeds = seed_list(maker, nonce);
    let mut last: Vec<u8> = Vec::new();
    last.push(proof);
    seeds.push(last);
    assert(seed_views(seeds@) =~= escrow_seeds(maker@, nonce).push(seq![proof]));
    match create_program_address(program, &seeds) {
        Ok(a) => Some(a),
        Err(_) => None,
    }
}

} // verus!
