use vstd::prelude::*;

use crate::model::{Challenge, Contribution, Pubkey, Solution};
use crate::trusted::{
    difficulty_of, digest_is_valid, is_valid_digest, signature_is_valid, solution_difficulty,
    verify_signature,
};
use vstd::arithmetic::power2::{lemma2_to64, lemma_pow2_strictly_increases, lemma_pow2_unfold, pow2};

verus! {

/// Why a submitted solution is turned away.
#[derive(Clone, Copy, Debug, PartialEq, Eq, Structural)]
pub enum Rejection {
    /// The signature is not the authority's over the solution.
    Unauthorized,
    /// The solution's difficulty is under the challenge's minimum.
    BelowMinDifficulty,
    /// The digest is not a valid equihash construction for the challenge.
    InvalidDigest,
    /// The difficulty is too large for its score `2^difficulty` to fit 64 bits.
    Malformed,
}

/// The bytes a member signs: the digest followed by the nonce.
pub open spec fn solution_message(s: Solution) -> Seq<u8> {
    s.d@ + s.n@
}

/// The outcome of the checks on a submission, given what the signature check,
/// the difficulty and the digest check gave: the first failing check decides.
pub open spec fn checked(
    challenge: Challenge,
    authority: Pubkey,
    solution: Solution,
    signature_ok: bool,
    difficulty: u32,
    digest_ok: bool,
) -> Result<Contribution, Rejection> {
    if !signature_ok {
        Err(Rejection::Unauthorized)
    } else if (difficulty as int) < (challenge.min_difficulty as int) {
        Err(Rejection::BelowMinDifficulty)
    } else if !digest_ok {
        Err(Rejection::InvalidDigest)
    } else if difficulty >= 64 {
        Err(Rejection::Malformed)
    } else {
        Ok(Contribution { member: authority, score: pow2(difficulty as nat) as u64, solution })
    }
}

/// The bytes a member signs for a solution: the digest followed by the nonce.
pub fn solution_bytes(s: &Solution) -> (r: [u8; 24])
    ensures
        r@ == solution_message(*s),
{
    let mut r: [u8; 24] = [0u8; 24];
    let mut i: usize = 0;
    while i < 24
        invariant
            i <= 24,
            r@.len() == 24,
            forall|j: int| 0 <= j < i ==> r@[j] == solution_message(*s)[j],
        decreases 24 - i,
    {
        if i < 16 {
            r[i] = s.d[i];
        } else {
            r[i] = s.n[i - 16];
        }
        i = i + 1;
    }
    assert(r@ =~= solution_message(*s));
    r
}

/// `2^e`, for `e` under 64.
pub fn score_for(e: u32) -> (r: u64)
    requires
        e < 64,
    ensures
        r == pow2(e as nat),
{
    let mut r: u64 = 1;
    let mut i: u32 = 0;
    proof {
        lemma2_to64();
    }
    while i < e
        invariant
            i <= e < 64,
            r == pow2(i as nat),
        decreases e - i,
    {
        proof {
            lemma_pow2_unfold((i + 1) as nat);
            lemma_pow2_strictly_increases((i + 1) as nat, 64);
            lemma2_to64();
        }
        r = r * 2;
        i = i + 1;
    }
    r
}

/// Applies the checks on a submission in order, given the outcome of the
/// signature check, the solution's difficulty and the outcome of the digest
/// check.
pub fn check_contribution(
    challenge: &Challenge,
    authority: &Pubkey,
    solution: &Solution,
    signature_ok: bool,
    difficulty: u32,
    digest_ok: bool,
) -> (r: Result<Contribution, Rejection>)
    ensures
        r == checked(*challenge, *authority, *solution, signature_ok, difficulty, digest_ok),
{
    if !signature_ok {
        Err(Rejection::Unauthorized)
    } else if (difficulty as u64) < challenge.min_difficulty {
        Err(Rejection::BelowMinDifficulty)
    } else if !digest_ok {
        Err(Rejection::InvalidDigest)
    } else if difficulty >= 64 {
        Err(Rejection::Malformed)
    } else {
        Ok(Contribution { member: *authority, score: score_for(difficulty), solution: *solution })
    }
}

/// Validates a submission against the current challenge: the signature by
/// the authority over the solution, then the minimum difficulty, then the
/// digest. On success the contribution carries the score `2^difficulty`.
pub fn validate_contribution(
    challenge: &Challenge,
    authority: &Pubkey,
    solution: &Solution,
    signature: &[u8; 64],
) -> (r: Result<Contribution, Rejection>)
    ensures
        r == checked(
            *challenge,
            *authority,
            *solution,
            signature_is_valid(authority@, solution_message(*solution), signature@),
            solution_difficulty(solution.d@, solution.n@),
            digest_is_valid(challenge.challenge@, solution.n@, solution.d@),
        ),
{
    let difficulty = difficulty_of(solution);
    let message = solution_bytes(solution);
    let signature_ok = verify_signature(authority, &message, signature);
    let digest_ok = is_valid_digest(&challenge.challenge, &solution.n, &solution.d);
    check_contribution(challenge, authority, solution, signature_ok, difficulty, digest_ok)
}

} // verus!
