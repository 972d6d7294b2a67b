use ore_pool_server::bus::{choose_bus, find_bus};
use ore_pool_server::contribute::{
    check_contribution, score_for, solution_bytes, validate_contribution, Rejection,
};
use ore_pool_server::model::{Challenge, Solution};

fn challenge(min_difficulty: u64) -> Challenge {
    Challenge { challenge: [1u8; 32], last_hash_at: 5, min_difficulty, cutoff_time: 60 }
}

fn solution() -> Solution {
    Solution { d: [2u8; 16], n: [3u8; 8] }
}

#[test]
fn checks_in_order() {
    let ch = challenge(8);
    let a = [4u8; 32];
    let s = solution();
    assert_eq!(check_contribution(&ch, &a, &s, false, 3, false).unwrap_err(), Rejection::Unauthorized);
    assert_eq!(
        check_contribution(&ch, &a, &s, true, 7, false).unwrap_err(),
        Rejection::BelowMinDifficulty
    );
    assert_eq!(check_contribution(&ch, &a, &s, true, 8, false).unwrap_err(), Rejection::InvalidDigest);
    assert_eq!(check_contribution(&ch, &a, &s, true, 64, true).unwrap_err(), Rejection::Malformed);
    let c = check_contribution(&ch, &a, &s, true, 8, true).unwrap();
    assert_eq!(c.score, 256);
    assert_eq!(c.member, a);
    assert_eq!(c.solution.d, s.d);
}

#[test]
fn scores_are_powers_of_two() {
    assert_eq!(score_for(0), 1);
    assert_eq!(score_for(12), 4096);
    assert_eq!(score_for(63), 1u64 << 63);
}

#[test]
fn signed_bytes_are_digest_then_nonce() {
    let s = Solution { d: [9u8; 16], n: [1, 2, 3, 4, 5, 6, 7, 8] };
    let b = solution_bytes(&s);
    assert_eq!(&b[..16], &[9u8; 16]);
    assert_eq!(&b[16..], &[1, 2, 3, 4, 5, 6, 7, 8]);
    assert_eq!(b, drillx::Solution::new(s.d, s.n).to_bytes());
}

#[test]
fn bad_signature_is_unauthorized() {
    let r = validate_contribution(&challenge(0), &[4u8; 32], &solution(), &[0u8; 64]);
    assert_eq!(r.unwrap_err(), Rejection::Unauthorized);
}

#[test]
fn bus_with_largest_balance_wins() {
    let balances = vec![Some(5), None, Some(9), Some(9), Some(1)];
    assert_eq!(choose_bus(&balances, 0), 2);
    assert_eq!(choose_bus(&balances, 4), 2);
    assert_eq!(find_bus(&balances), 2);
}

#[test]
fn bus_seed_kept_when_nothing_readable() {
    let balances = vec![Some(0), None, Some(0)];
    assert_eq!(choose_bus(&balances, 1), 1);
    assert_eq!(choose_bus(&balances, 2), 2);
    assert!(find_bus(&balances) < 3);
}

#[test]
fn chosen_bus_never_poorer_than_seed() {
    let balances = vec![Some(3), Some(8), None, Some(2), Some(8), Some(0), Some(1), Some(7)];
    for seed in 0..balances.len() {
        let r = choose_bus(&balances, seed);
        assert!(balances[r].unwrap_or(0) >= balances[seed].unwrap_or(0));
    }
}

fn signed_solution(d: [u8; 16], n: [u8; 8]) -> ([u8; 32], [u8; 64]) {
    let secret = ed25519_dalek::SecretKey::from_bytes(&[7u8; 32]).unwrap();
    let public = ed25519_dalek::PublicKey::from(&secret);
    let keypair = ed25519_dalek::Keypair { secret, public };
    let message = drillx::Solution::new(d, n).to_bytes();
    (public.to_bytes(), ed25519_dalek::Signer::sign(&keypair, &message).to_bytes())
}

fn mined(challenge: &[u8; 32]) -> ([u8; 16], [u8; 8]) {
    for k in 0u64..1000 {
        let n = k.to_le_bytes();
        if let Ok(h) = drillx::hash(challenge, &n) {
            return (h.d, n);
        }
    }
    panic!("no equix solution found");
}

#[test]
fn valid_submission_is_accepted_with_its_score() {
    let ch = challenge(0);
    let (d, n) = mined(&ch.challenge);
    let (authority, signature) = signed_solution(d, n);
    let s = Solution { d, n };
    let difficulty = drillx::Solution::new(d, n).to_hash().difficulty();
    let c = validate_contribution(&ch, &authority, &s, &signature).unwrap();
    assert_eq!(c.member, authority);
    assert_eq!(c.score, 1u64 << difficulty);
    let harder = challenge(difficulty as u64 + 1);
    assert_eq!(
        validate_contribution(&harder, &authority, &s, &signature).unwrap_err(),
        Rejection::BelowMinDifficulty
    );
}

#[test]
fn forged_digest_is_rejected() {
    let ch = challenge(0);
    let (mut d, n) = mined(&ch.challenge);
    d[0] ^= 0x55;
    d[5] ^= 0x0f;
    let (authority, signature) = signed_solution(d, n);
    let s = Solution { d, n };
    assert_eq!(
        validate_contribution(&ch, &authority, &s, &signature).unwrap_err(),
        Rejection::InvalidDigest
    );
}
