use ore_pool_server::aggregator::Aggregator;
use ore_pool_server::model::{Challenge, Contribution, RoundError, Solution};
use ore_pool_server::rewards::{
    balance_total, commissions_valid, share, staker_distribution, BoostEvent, Rewards,
};

fn key(b: u8) -> [u8; 32] {
    [b; 32]
}

fn challenge() -> Challenge {
    Challenge { challenge: [0u8; 32], last_hash_at: 1, min_difficulty: 1, cutoff_time: 30 }
}

fn contribution(member: u8, score: u64) -> Contribution {
    Contribution { member: key(member), score, solution: Solution { d: [member; 16], n: [0; 8] } }
}

#[test]
fn rewards_with_only_boost_one() {
    let mint = key(0xaa);
    let staker = key(0x51);
    let operator = key(0x0f);
    let mut agg = Aggregator::new(challenge(), 1, vec![(mint, vec![(staker, 100)])]);
    assert!(agg.insert_scored(&contribution(1, 256), 8));
    let rewards = Rewards {
        base: 1000,
        boost_1: Some(BoostEvent { mint, reward: 500 }),
        boost_2: None,
        boost_3: None,
    };
    let miners = agg.rewards_distribution(&rewards, 5, 10);
    assert_eq!(miners, vec![(key(1), 1375)]);
    let stakers = agg.rewards_distribution_boost(rewards.boost_1, 10).unwrap();
    assert_eq!(stakers, vec![(staker, 50)]);
    assert_eq!(agg.rewards_distribution_boost(rewards.boost_2, 10).unwrap(), vec![]);
    assert_eq!(agg.rewards_distribution_boost(rewards.boost_3, 10).unwrap(), vec![]);
    assert_eq!(agg.rewards_distribution_operator(operator, &rewards, 5), (operator, 75));
}

#[test]
fn two_miners_split_the_pot_by_score() {
    let mut agg = Aggregator::new(challenge(), 2, Vec::new());
    assert!(agg.insert_scored(&contribution(1, 512), 12));
    assert!(agg.insert_scored(&contribution(2, 512), 12));
    let rewards = Rewards { base: 1001, boost_1: None, boost_2: None, boost_3: None };
    let miners = agg.rewards_distribution(&rewards, 0, 0);
    assert_eq!(miners, vec![(key(1), 500), (key(2), 500)]);
}

#[test]
fn missing_staker_snapshot_is_an_error() {
    let agg = Aggregator::new(challenge(), 0, vec![(key(1), vec![(key(2), 5)])]);
    let boost = Some(BoostEvent { mint: key(3), reward: 10 });
    assert_eq!(
        agg.rewards_distribution_boost(boost, 10).unwrap_err(),
        RoundError::MissingStakerBalances
    );
}

#[test]
fn stakers_split_by_balance() {
    let mint = key(9);
    let agg = Aggregator::new(
        challenge(),
        0,
        vec![(key(8), vec![]), (mint, vec![(key(1), 30), (key(2), 70)])],
    );
    let boost = Some(BoostEvent { mint, reward: 1000 });
    let out = agg.rewards_distribution_boost(boost, 20).unwrap();
    assert_eq!(out, vec![(key(1), 60), (key(2), 140)]);
}

#[test]
fn full_commission_leaves_no_boost_to_miners() {
    let b = Some(BoostEvent { mint: key(1), reward: 12345 });
    assert_eq!(Aggregator::split_stake_rewards_for_miners(b, 40, 60), 0);
    assert_eq!(Aggregator::split_stake_rewards_for_miners(b, 40, 50), 1234);
    assert_eq!(Aggregator::split_stake_rewards_for_miners(None, 10, 10), 0);
}

#[test]
fn attribution_stays_within_rewards() {
    let mint_1 = key(0xa1);
    let mint_2 = key(0xa2);
    let mint_3 = key(0xa3);
    let stake = vec![
        (mint_1, vec![(key(0x11), 3), (key(0x12), 7), (key(0x13), 11)]),
        (mint_2, vec![(key(0x21), 1)]),
        (mint_3, vec![(key(0x31), 2), (key(0x32), 2)]),
    ];
    let mut agg = Aggregator::new(challenge(), 3, stake);
    for (m, s) in [(1u8, 7u64), (2, 13), (3, 29)] {
        assert!(agg.insert_scored(&contribution(m, s), 1));
    }
    let rewards = Rewards {
        base: 9999,
        boost_1: Some(BoostEvent { mint: mint_1, reward: 777 }),
        boost_2: Some(BoostEvent { mint: mint_2, reward: 333 }),
        boost_3: Some(BoostEvent { mint: mint_3, reward: 101 }),
    };
    let (op, st) = (7, 13);
    let mut paid: u64 = 0;
    let mut entries: u64 = 0;
    for (_, a) in agg.rewards_distribution(&rewards, op, st) {
        paid += a;
        entries += 1;
    }
    for b in [rewards.boost_1, rewards.boost_2, rewards.boost_3] {
        for (_, a) in agg.rewards_distribution_boost(b, st).unwrap() {
            paid += a;
            entries += 1;
        }
    }
    paid += agg.rewards_distribution_operator(key(0xee), &rewards, op).1;
    let total = 9999 + 777 + 333 + 101;
    assert!(paid <= total);
    assert!(total - paid <= entries + 4);
}

#[test]
fn share_by_zero_is_zero() {
    assert_eq!(share(5, 100, 0), 0);
    assert_eq!(share(1, 10, 3), 3);
    assert_eq!(share(u64::MAX, u128::MAX, 1), u64::MAX);
}

#[test]
fn balances_sum_and_split() {
    let s = vec![(key(1), u64::MAX), (key(2), u64::MAX)];
    assert_eq!(balance_total(&s), 2 * (u64::MAX as u128));
    assert_eq!(staker_distribution(&s, 10), vec![(key(1), 5), (key(2), 5)]);
    assert_eq!(staker_distribution(&vec![], 10), vec![]);
}

#[test]
fn commission_configuration() {
    assert!(commissions_valid(5, 10));
    assert!(commissions_valid(40, 60));
    assert!(!commissions_valid(50, 51));
    assert!(!commissions_valid(u64::MAX, 2));
}
