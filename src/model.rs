use vstd::prelude::*;

verus! {

/// A 32-byte account address.
pub type Pubkey = [u8; 32];

/// A drillx solution: an equihash digest and the nonce that produced it.
#[derive(Clone, Copy, Debug)]
pub struct Solution {
    pub d: [u8; 16],
    pub n: [u8; 8],
}

/// A recorded contribution from a member of the pool.
#[derive(Clone, Copy, Debug)]
pub struct Contribution {
    /// The member who submitted the solution.
    pub member: Pubkey,
    /// The weight of the solution, `2^difficulty`.
    pub score: u64,
    /// The solution itself.
    pub solution: Solution,
}

/// The best solution of the round so far.
#[derive(Clone, Copy, Debug)]
pub struct Winner {
    pub solution: Solution,
    pub difficulty: u32,
}

/// The puzzle that the pool works on during one round.
#[derive(Clone, Copy, Debug)]
pub struct Challenge {
    /// The on-chain challenge digest.
    pub challenge: [u8; 32],
    /// When the pool last landed a hash on chain; identifies the round.
    pub last_hash_at: i64,
    /// The least difficulty a contribution must reach.
    pub min_difficulty: u64,
    /// Seconds from the start of the round after which no contribution is taken.
    pub cutoff_time: u64,
}

/// A fault that ends the round; the supervising process restarts.
#[derive(Clone, Copy, Debug, PartialEq, Eq, Structural)]
pub enum RoundError {
    /// Submission was reached with no contribution.
    NoSolutions,
    /// A boost paid rewards for a mint that the stake snapshot lacks.
    MissingStakerBalances,
    /// The on-chain challenge did not advance within the allowed attempts.
    ChallengeNotAdvanced,
    /// No member account address exists for an authority and the pool.
    NoMemberAddress,
}

/// Strict lexicographic order on byte strings, compared from position `i` on.
pub open spec fn key_lt_from(a: Seq<u8>, b: Seq<u8>, i: nat) -> bool
    decreases a.len() - i,
{
    if i >= a.len() || i >= b.len() {
        false
    } else if a[i as int] < b[i as int] {
        true
    } else if a[i as int] > b[i as int] {
        false
    } else {
        key_lt_from(a, b, i + 1)
    }
}

/// Strict lexicographic order on addresses.
pub open spec fn key_lt(a: Pubkey, b: Pubkey) -> bool {
    key_lt_from(a@, b@, 0)
}

proof fn lemma_key_lt_from_facts(a: Seq<u8>, b: Seq<u8>, c: Seq<u8>, i: nat)
    requires
        a.len() == b.len(),
        b.len() == c.len(),
    ensures
        !key_lt_from(a, a, i),
        key_lt_from(a, b, i) && key_lt_from(b, c, i) ==> key_lt_from(a, c, i),
        (forall|j: int| i <= j < a.len() ==> a[j] == b[j]) || key_lt_from(a, b, i)
            || key_lt_from(b, a, i),
    decreases a.len() - i,
{
    if i < a.len() {
        lemma_key_lt_from_facts(a, b, c, i + 1);
    }
}

/// The order on addresses is irreflexive, transitive and total.
pub proof fn lemma_key_order(a: Pubkey, b: Pubkey, c: Pubkey)
    ensures
        !key_lt(a, a),
        key_lt(a, b) && key_lt(b, c) ==> key_lt(a, c),
        a == b || key_lt(a, b) || key_lt(b, a),
{
    lemma_key_lt_from_facts(a@, b@, c@, 0);
    if !key_lt(a, b) && !key_lt(b, a) {
        assert(a@ =~= b@);
    }
}

/// Compares two addresses byte by byte: negative, zero or positive as `a`
/// sorts before, equal to or after `b`.
pub fn compare_keys(a: &Pubkey, b: &Pubkey) -> (r: i8)
    ensures
        r < 0 <==> key_lt(*a, *b),
        r == 0 <==> *a == *b,
        r > 0 <==> key_lt(*b, *a),
{
    proof {
        lemma_key_order(*a, *b, *a);
    }
    let mut i: usize = 0;
    while i < 32
        invariant
            i <= 32,
            forall|j: int| 0 <= j < i ==> a@[j] == b@[j],
            key_lt(*a, *b) == key_lt_from(a@, b@, i as nat),
            key_lt(*b, *a) == key_lt_from(b@, a@, i as nat),
        decreases 32 - i,
    {
        if a[i] < b[i] {
            return -1;
        } else if a[i] > b[i] {
            return 1;
        }
        i = i + 1;
    }
    assert(a@ =~= b@);
    0
}

} // verus!
