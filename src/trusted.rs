//! The calls this library makes into outside crates, each with the contract
//! that the library relies on.
use vstd::prelude::*;

use crate::model::{Pubkey, Solution};
use sha3::Digest;

verus! {

/// The difficulty of a drillx solution: the leading zero bits of its hash.
pub uninterp spec fn solution_difficulty(d: Seq<u8>, n: Seq<u8>) -> u32;

/// Whether a digest is a valid equihash construction for a challenge and nonce.
pub uninterp spec fn digest_is_valid(challenge: Seq<u8>, n: Seq<u8>, d: Seq<u8>) -> bool;

/// Whether a signature is a valid ed25519 signature by a key over a message.
pub uninterp spec fn signature_is_valid(key: Seq<u8>, message: Seq<u8>, signature: Seq<u8>) -> bool;

/// The base58 text of an address, as ASCII bytes.
pub uninterp spec fn base58_of(key: Seq<u8>) -> Seq<u8>;

/// The SHA3-256 digest of a byte string.
pub uninterp spec fn sha3_256_of(data: Seq<u8>) -> Seq<u8>;

/// The program-derived address for three seeds under a program, when a bump
/// seed gives one.
pub uninterp spec fn program_address_of(
    seed: Seq<u8>,
    first: Seq<u8>,
    second: Seq<u8>,
    program: Seq<u8>,
) -> Option<Seq<u8>>;

/// Relies on solana-pubkey's `Pubkey::try_find_program_address`: the
/// program-derived address for the seeds, or `None` when no bump seed gives
/// one.
#[verifier::external_body]
pub(crate) fn program_address(seed: &[u8], first: &Pubkey, second: &Pubkey, program: &Pubkey) -> (r:
    Option<Pubkey>)
    ensures
        match r {
            Some(a) => program_address_of(seed@, first@, second@, program@) == Some(a@),
            None => program_address_of(seed@, first@, second@, program@) is None,
        },
{
    let program = solana_pubkey::Pubkey::new_from_array(*program);
    solana_pubkey::Pubkey::try_find_program_address(&[seed, first, second], &program).map(
        |(a, _)| a.to_bytes(),
    )
}

/// Relies on drillx's `Solution::to_hash` and `Hash::difficulty`: the count of
/// leading zero bits of a 32-byte hash, which is at most 256.
#[verifier::external_body]
pub(crate) fn difficulty_of(s: &Solution) -> (r: u32)
    ensures
        r == solution_difficulty(s.d@, s.n@),
        r <= 256,
{
    drillx::Solution::new(s.d, s.n).to_hash().difficulty()
}

/// Relies on drillx's `is_valid_digest`: equihash verification of a digest
/// against a challenge and a nonce.
#[verifier::external_body]
pub(crate) fn is_valid_digest(challenge: &[u8; 32], n: &[u8; 8], d: &[u8; 16]) -> (r: bool)
    ensures
        r == digest_is_valid(challenge@, n@, d@),
{
    drillx::is_valid_digest(challenge, n, d)
}

/// Relies on solana-signature's `Signature::verify`: strict ed25519
/// verification of a signature by a key over a message.
#[verifier::external_body]
pub(crate) fn verify_signature(key: &Pubkey, message: &[u8; 24], signature: &[u8; 64]) -> (r: bool)
    ensures
        r == signature_is_valid(key@, message@, signature@),
{
    solana_signature::Signature::from(*signature).verify(key, message)
}

/// Relies on solana-pubkey's `Display` for `Pubkey`: the base58 text of the
/// address.
#[verifier::external_body]
pub(crate) fn base58(key: &Pubkey) -> (r: Vec<u8>)
    ensures
        r@ == base58_of(key@),
{
    solana_pubkey::Pubkey::new_from_array(*key).to_string().into_bytes()
}

/// Relies on sha3's `Sha3_256`: the SHA3-256 digest of the bytes.
#[verifier::external_body]
pub(crate) fn sha3_256(data: &Vec<u8>) -> (r: [u8; 32])
    ensures
        r@ == sha3_256_of(data@),
{
    sha3::Sha3_256::digest(data.as_slice()).into()
}

/// Relies on rand's `Rng::gen_range` over `thread_rng`: an index below `n`,
/// drawn at random. The range must not be empty.
#[verifier::external_body]
pub(crate) fn random_index(n: usize) -> (r: usize)
    requires
        n > 0,
    ensures
        r < n,
{
    rand::Rng::gen_range(&mut rand::thread_rng(), 0..n)
}

} // verus!
