use ore_pool_server::aggregator::Aggregator;
use ore_pool_server::driver::{
    after_cutoff, check_for_reset, client_cutoff, remaining_secs, rotation_step, CutoffAction,
    RotationStep,
};
use ore_pool_server::model::{compare_keys, Challenge, Contribution, RoundError, Solution};
use sha3::Digest;

fn challenge(min_difficulty: u64, cutoff_time: u64) -> Challenge {
    Challenge { challenge: [7u8; 32], last_hash_at: 100, min_difficulty, cutoff_time }
}

fn contribution(member: u8, score: u64, tag: u8) -> Contribution {
    let mut key = [0u8; 32];
    key[0] = member;
    key[31] = member;
    Contribution {
        member: key,
        score,
        solution: Solution { d: [tag; 16], n: [tag, 0, 0, 0, 0, 0, 0, 1] },
    }
}

fn expected_line(c: &Contribution) -> String {
    let hex: String = c.solution.d.iter().map(|b| format!("{:02x}", b)).collect();
    format!(
        "{} {} {}\n",
        solana_pubkey::Pubkey::new_from_array(c.member),
        hex,
        u64::from_le_bytes(c.solution.n)
    )
}

#[test]
fn single_contributor_at_min_difficulty() {
    let mut agg = Aggregator::new(challenge(8, 30), 1, Vec::new());
    let c = contribution(1, 256, 3);
    assert!(agg.insert_scored(&c, 8));
    assert_eq!(agg.total_score, 256);
    let w = agg.winner().unwrap();
    assert_eq!(w.difficulty, 8);
    assert_eq!(w.solution.d, c.solution.d);
    assert_eq!(w.solution.n, c.solution.n);
    assert_eq!(after_cutoff(agg.total_score), CutoffAction::Submit);
    let line = expected_line(&c);
    let expected: [u8; 32] = sha3::Sha3_256::digest(line.as_bytes()).into();
    assert_eq!(agg.attestation(), expected);
}

#[test]
fn two_contributors_tie_keeps_first() {
    let mut agg = Aggregator::new(challenge(8, 30), 2, Vec::new());
    let first = contribution(9, 512, 1);
    let second = contribution(2, 512, 2);
    assert!(agg.insert_scored(&first, 12));
    assert!(agg.insert_scored(&second, 12));
    assert_eq!(agg.total_score, 1024);
    let w = agg.winner().unwrap();
    assert_eq!(w.difficulty, 12);
    assert_eq!(w.solution.d, first.solution.d);
    assert_eq!(agg.contributions.len(), 2);
}

#[test]
fn late_duplicate_is_ignored() {
    let mut agg = Aggregator::new(challenge(8, 30), 1, Vec::new());
    let early = contribution(4, 1024, 1);
    let late = contribution(4, 32768, 2);
    assert!(agg.insert_scored(&early, 10));
    assert!(!agg.insert_scored(&late, 15));
    assert_eq!(agg.total_score, 1024);
    assert_eq!(agg.contributions.len(), 1);
    assert_eq!(agg.contributions[0].score, 1024);
    let w = agg.winner().unwrap();
    assert_eq!(w.difficulty, 10);
    assert_eq!(w.solution.d, early.solution.d);
}

#[test]
fn nothing_before_cutoff_waits_for_first() {
    let mut agg = Aggregator::new(challenge(8, 5), 1, Vec::new());
    assert_eq!(remaining_secs(5, 5), 0);
    assert_eq!(remaining_secs(5, 2), 3);
    assert_eq!(remaining_secs(5, 12), 0);
    assert_eq!(after_cutoff(agg.total_score), CutoffAction::AwaitFirst);
    assert!(agg.insert_scored(&contribution(1, 512, 1), 9));
    assert_eq!(after_cutoff(agg.total_score), CutoffAction::Submit);
    assert_eq!(agg.winner().unwrap().difficulty, 9);
}

#[test]
fn irregular_reset_rotates_without_submitting() {
    let mut agg = Aggregator::new(challenge(8, 30), 3, Vec::new());
    assert!(agg.insert_scored(&contribution(1, 512, 1), 9));
    assert!(check_for_reset(&agg.challenge, 101));
    assert!(!check_for_reset(&agg.challenge, 100));
    assert!(agg.update_challenge([9u8; 32], 101, 10, 40, 5));
    assert_eq!(agg.challenge.last_hash_at, 101);
    assert_eq!(agg.challenge.challenge, [9u8; 32]);
    assert_eq!(agg.challenge.min_difficulty, 10);
    assert_eq!(agg.challenge.cutoff_time, 40);
    assert_eq!(agg.num_members, 5);
    assert_eq!(agg.total_score, 0);
    assert!(agg.contributions.is_empty());
    assert!(agg.winner.is_none());
}

#[test]
fn update_challenge_without_advance_changes_nothing() {
    let mut agg = Aggregator::new(challenge(8, 30), 3, Vec::new());
    assert!(agg.insert_scored(&contribution(1, 512, 1), 9));
    assert!(!agg.update_challenge([9u8; 32], 100, 10, 40, 5));
    assert_eq!(agg.total_score, 512);
    assert_eq!(agg.num_members, 3);
    assert_eq!(agg.challenge.challenge, [7u8; 32]);
}

#[test]
fn winner_error_when_empty() {
    let agg = Aggregator::new(challenge(8, 30), 0, Vec::new());
    assert_eq!(agg.winner().unwrap_err(), RoundError::NoSolutions);
}

#[test]
fn winner_is_first_of_the_greatest() {
    let mut agg = Aggregator::new(challenge(1, 30), 5, Vec::new());
    let ds = [3u32, 7, 5, 7, 2];
    for (i, d) in ds.iter().enumerate() {
        assert!(agg.insert_scored(&contribution(10 - i as u8, 1u64 << d, i as u8), *d));
    }
    let w = agg.winner().unwrap();
    assert_eq!(w.difficulty, 7);
    assert_eq!(w.solution.d, [1u8; 16]);
    assert_eq!(agg.total_score, 8 + 128 + 32 + 128 + 4);
}

#[test]
fn contributions_sorted_by_member() {
    let mut agg = Aggregator::new(challenge(1, 30), 3, Vec::new());
    for m in [5u8, 1, 9, 3] {
        assert!(agg.insert_scored(&contribution(m, 2, m), 1));
    }
    let members: Vec<u8> = agg.contributions.iter().map(|c| c.member[0]).collect();
    assert_eq!(members, vec![1, 3, 5, 9]);
    assert!(agg.contains_member(&contribution(9, 0, 0).member));
    assert!(!agg.contains_member(&contribution(8, 0, 0).member));
}

#[test]
fn attestation_independent_of_arrival_order() {
    let mut a = Aggregator::new(challenge(1, 30), 3, Vec::new());
    let mut b = Aggregator::new(challenge(1, 30), 3, Vec::new());
    let cs = [contribution(5, 2, 1), contribution(1, 4, 2), contribution(3, 8, 3)];
    for c in cs.iter() {
        a.insert_scored(c, 1);
    }
    for c in cs.iter().rev() {
        b.insert_scored(c, 1);
    }
    assert_eq!(a.attestation(), b.attestation());
    let mut sorted = cs.to_vec();
    sorted.sort_by(|x, y| x.member.cmp(&y.member));
    let text: String = sorted.iter().map(expected_line).collect();
    let expected: [u8; 32] = sha3::Sha3_256::digest(text.as_bytes()).into();
    assert_eq!(a.attestation(), expected);
}

#[test]
fn insert_computes_difficulty_with_drillx() {
    let mut agg = Aggregator::new(challenge(0, 30), 1, Vec::new());
    let c = contribution(1, 1, 42);
    let expected = drillx::Solution::new(c.solution.d, c.solution.n).to_hash().difficulty();
    assert!(agg.insert(&c));
    assert_eq!(agg.winner().unwrap().difficulty, expected);
}

#[test]
fn key_comparison() {
    let a = [0u8; 32];
    let mut b = [0u8; 32];
    b[31] = 1;
    let mut c = [0u8; 32];
    c[0] = 1;
    assert!(compare_keys(&a, &b) < 0);
    assert!(compare_keys(&c, &b) > 0);
    assert_eq!(compare_keys(&b, &b), 0);
}

#[test]
fn rotation_retries_then_gives_up() {
    assert_eq!(rotation_step(100, 101, 0), RotationStep::Advance);
    assert_eq!(rotation_step(100, 100, 0), RotationStep::Retry);
    assert_eq!(rotation_step(100, 100, 8), RotationStep::Retry);
    assert_eq!(rotation_step(100, 100, 9), RotationStep::GiveUp);
    assert_eq!(rotation_step(100, 99, 9), RotationStep::Advance);
}

#[test]
fn clients_see_an_earlier_cutoff() {
    assert_eq!(client_cutoff(30, 3), 25);
    assert_eq!(client_cutoff(5, 3), 0);
    assert_eq!(client_cutoff(5, 4), 0);
    assert_eq!(client_cutoff(10, u64::MAX), 0);
}
