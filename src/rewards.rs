use vstd::prelude::*;

use crate::aggregator::{Aggregator, StakerBalances};
use crate::model::{Contribution, Pubkey, RoundError};

verus! {

/// Rewards paid by one boost stream.
#[derive(Clone, Copy, Debug)]
pub struct BoostEvent {
    /// The boost's token mint.
    pub mint: Pubkey,
    /// The amount paid.
    pub reward: u64,
}

/// The rewards the chain paid for one submitted round.
#[derive(Clone, Copy, Debug)]
pub struct Rewards {
    /// The base mining reward.
    pub base: u64,
    pub boost_1: Option<BoostEvent>,
    pub boost_2: Option<BoostEvent>,
    pub boost_3: Option<BoostEvent>,
}

pub open spec fn min_int(a: int, b: int) -> int {
    if a <= b {
        a
    } else {
        b
    }
}

/// `weight * pot / total` in 128-bit arithmetic: the product saturates at
/// `u128::MAX`, division by zero gives 0, and the result saturates at
/// `u64::MAX`.
pub open spec fn share_spec(weight: int, pot: int, total: int) -> int {
    if total == 0 {
        0
    } else {
        min_int(min_int(weight * pot, u128::MAX as int) / total, u64::MAX as int)
    }
}

/// What a boost leaves to the miners once operator and stakers took theirs.
pub open spec fn boost_residual(b: Option<BoostEvent>, op: int, st: int) -> int {
    match b {
        Some(b) => b.reward * (100 - op - st) / 100,
        None => 0,
    }
}

/// The amount a boost paid, or 0 when absent.
pub open spec fn boost_reward(b: Option<BoostEvent>) -> int {
    match b {
        Some(b) => b.reward as int,
        None => 0,
    }
}

/// The operator's commission on a boost.
pub open spec fn boost_operator(b: Option<BoostEvent>, op: int) -> int {
    match b {
        Some(b) => b.reward * op / 100,
        None => 0,
    }
}

/// The miners' pot: their share of the base reward and each boost's residual.
pub open spec fn miner_pot(r: Rewards, op: int, st: int) -> int {
    r.base * (100 - op) / 100 + boost_residual(r.boost_1, op, st) + boost_residual(
        r.boost_2,
        op,
        st,
    ) + boost_residual(r.boost_3, op, st)
}

/// The operator's total: its commission on the base reward and on each boost,
/// saturating at `u64::MAX`.
pub open spec fn operator_amount(r: Rewards, op: int) -> int {
    min_int(
        r.base * op / 100 + boost_operator(r.boost_1, op) + boost_operator(r.boost_2, op)
            + boost_operator(r.boost_3, op),
        u64::MAX as int,
    )
}

/// Each entry's share of the pot by weight, out of `total`.
pub open spec fn weighted(s: Seq<(Pubkey, u64)>, pot: int, total: int) -> Seq<(Pubkey, u64)> {
    s.map_values(|e: (Pubkey, u64)| (e.0, share_spec(e.1 as int, pot, total) as u64))
}

/// Each contribution's member and score.
pub open spec fn weights_of(cs: Seq<Contribution>) -> Seq<(Pubkey, u64)> {
    cs.map_values(|c: Contribution| (c.member, c.score))
}

/// The miners' attribution: each contribution's share of the pot by score.
pub open spec fn miner_attribution(cs: Seq<Contribution>, total: int, pot: int) -> Seq<(Pubkey, u64)> {
    weighted(weights_of(cs), pot, total)
}

/// The sum of the balances.
pub open spec fn balance_sum(s: Seq<(Pubkey, u64)>) -> int
    decreases s.len(),
{
    if s.len() == 0 {
        0
    } else {
        balance_sum(s.drop_last()) + s.last().1
    }
}

/// The stakers' attribution: each staker's share of the pot by balance.
pub open spec fn staker_attribution(s: Seq<(Pubkey, u64)>, pot: int) -> Seq<(Pubkey, u64)> {
    weighted(s, pot, balance_sum(s))
}

/// What the stakers of a boost receive in all, given the balances found for
/// its mint; nothing when the boost is absent.
pub open spec fn boost_staker_total(b: Option<BoostEvent>, s: Seq<(Pubkey, u64)>, st: int) -> int {
    match b {
        Some(b) => amount_sum(staker_attribution(s, b.reward * st / 100)),
        None => 0,
    }
}

/// Inserting an entry adds its weight to the sum.
pub proof fn lemma_balance_sum_insert(s: Seq<(Pubkey, u64)>, i: int, x: (Pubkey, u64))
    requires
        0 <= i <= s.len(),
    ensures
        balance_sum(s.insert(i, x)) == balance_sum(s) + x.1,
    decreases s.len(),
{
    if i == s.len() {
        assert(s.insert(i, x) =~= s.push(x));
        assert(s.push(x).drop_last() =~= s);
    } else {
        let t = s.insert(i, x);
        assert(t.drop_last() =~= s.drop_last().insert(i, x));
        lemma_balance_sum_insert(s.drop_last(), i, x);
    }
}

proof fn lemma_balance_sum_nonneg(s: Seq<(Pubkey, u64)>)
    ensures
        balance_sum(s) >= 0,
    decreases s.len(),
{
    if s.len() > 0 {
        lemma_balance_sum_nonneg(s.drop_last());
    }
}

proof fn lemma_weighted_sum(s: Seq<(Pubkey, u64)>, pot: int, total: int)
    requires
        pot >= 0,
        total > 0,
    ensures
        amount_sum(weighted(s, pot, total)) * total <= balance_sum(s) * pot,
        amount_sum(weighted(s, pot, total)) >= 0,
    decreases s.len(),
{
    if s.len() > 0 {
        let w = weighted(s, pot, total);
        let p = s.drop_last();
        assert(w.drop_last() =~= weighted(p, pot, total));
        lemma_weighted_sum(p, pot, total);
        let x = s.last().1 as int;
        let m = min_int(x * pot, u128::MAX as int);
        assert(m >= 0) by (nonlinear_arith)
            requires x >= 0, pot >= 0, m == min_int(x * pot, u128::MAX as int);
        let q = share_spec(x, pot, total);
        assert(q * total <= m) by (nonlinear_arith)
            requires q == min_int(m / total, u64::MAX as int), m >= 0, total > 0;
        assert(0 <= q) by (nonlinear_arith)
            requires q == min_int(m / total, u64::MAX as int), m >= 0, total > 0;
        assert(w.last().1 == q);
        let a = amount_sum(w.drop_last());
        assert((a + q) * total == a * total + q * total) by (nonlinear_arith);
        assert(balance_sum(s) * pot == balance_sum(p) * pot + x * pot) by (nonlinear_arith)
            requires balance_sum(s) == balance_sum(p) + x;
    }
}

/// The shares of a pot, by weight, out of a total no smaller than the sum of
/// the weights, add up to at most the pot.
pub proof fn lemma_shares_within_pot(s: Seq<(Pubkey, u64)>, pot: int, total: int)
    requires
        pot >= 0,
        total >= balance_sum(s),
    ensures
        0 <= amount_sum(weighted(s, pot, total)) <= pot,
    decreases s.len(),
{
    lemma_balance_sum_nonneg(s);
    if total == 0 {
        lemma_zero_shares(s, pot);
    } else {
        lemma_weighted_sum(s, pot, total);
        let a = amount_sum(weighted(s, pot, total));
        assert(a <= pot) by (nonlinear_arith)
            requires a * total <= balance_sum(s) * pot, balance_sum(s) <= total, total > 0, pot
                >= 0, a >= 0, balance_sum(s) >= 0;
    }
}

proof fn lemma_zero_shares(s: Seq<(Pubkey, u64)>, pot: int)
    ensures
        amount_sum(weighted(s, pot, 0)) == 0,
    decreases s.len(),
{
    if s.len() > 0 {
        assert(weighted(s, pot, 0).drop_last() =~= weighted(s.drop_last(), pot, 0));
        lemma_zero_shares(s.drop_last(), pot);
    }
}

proof fn lemma_three_way_split(r: int, op: int, st: int)
    requires
        0 <= r,
        0 <= op,
        0 <= st,
        op + st <= 100,
    ensures
        r * (100 - op - st) / 100 + r * st / 100 + r * op / 100 <= r,
        r * (100 - op - st) / 100 >= 0,
        r * st / 100 >= 0,
        r * op / 100 >= 0,
{
    let a = r * (100 - op - st);
    let b = r * st;
    let c = r * op;
    assert(a >= 0 && b >= 0 && c >= 0) by (nonlinear_arith)
        requires a == r * (100 - op - st), b == r * st, c == r * op, 0 <= r, 0 <= op, 0 <= st, op
            + st <= 100;
    assert(a + b + c == r * 100) by (nonlinear_arith)
        requires a == r * (100 - op - st), b == r * st, c == r * op;
    assert((a / 100) * 100 <= a && (b / 100) * 100 <= b && (c / 100) * 100 <= c) by (nonlinear_arith)
        requires a >= 0, b >= 0, c >= 0;
    assert(a / 100 >= 0 && b / 100 >= 0 && c / 100 >= 0) by (nonlinear_arith)
        requires a >= 0, b >= 0, c >= 0;
}

proof fn lemma_boost_split(b: Option<BoostEvent>, s: Seq<(Pubkey, u64)>, op: int, st: int)
    requires
        0 <= op,
        0 <= st,
        op + st <= 100,
    ensures
        boost_residual(b, op, st) + boost_staker_total(b, s, st) + boost_operator(b, op)
            <= boost_reward(b),
        boost_residual(b, op, st) >= 0,
        boost_staker_total(b, s, st) >= 0,
        boost_operator(b, op) >= 0,
{
    if let Some(e) = b {
        lemma_three_way_split(e.reward as int, op, st);
        lemma_shares_within_pot(s, e.reward * st / 100, balance_sum(s));
    }
}

/// The attribution never pays out more than the chain paid: the miners', the
/// three boosts' stakers' and the operator's amounts add up to at most the
/// base reward plus the boosts' rewards, whatever balances the snapshot holds
/// for each boost's mint.
pub proof fn lemma_attribution_conservation(
    agg: Aggregator,
    rewards: Rewards,
    operator_commission: u64,
    staker_commission: u64,
    stakers_1: Seq<(Pubkey, u64)>,
    stakers_2: Seq<(Pubkey, u64)>,
    stakers_3: Seq<(Pubkey, u64)>,
)
    requires
        agg.wf(),
        operator_commission + staker_commission <= 100,
    ensures
        amount_sum(
            miner_attribution(
                agg.contributions@,
                agg.total_score as int,
                miner_pot(rewards, operator_commission as int, staker_commission as int),
            ),
        ) + boost_staker_total(rewards.boost_1, stakers_1, staker_commission as int)
            + boost_staker_total(rewards.boost_2, stakers_2, staker_commission as int)
            + boost_staker_total(rewards.boost_3, stakers_3, staker_commission as int)
            + operator_amount(rewards, operator_commission as int) <= rewards.base + boost_reward(
            rewards.boost_1,
        ) + boost_reward(rewards.boost_2) + boost_reward(rewards.boost_3),
{
    let op = operator_commission as int;
    let st = staker_commission as int;
    lemma_boost_split(rewards.boost_1, stakers_1, op, st);
    lemma_boost_split(rewards.boost_2, stakers_2, op, st);
    lemma_boost_split(rewards.boost_3, stakers_3, op, st);
    lemma_three_way_split(rewards.base as int, op, 0);
    let pot = miner_pot(rewards, op, st);
    lemma_shares_within_pot(weights_of(agg.contributions@), pot, agg.total_score as int);
}

proof fn lemma_entry_within_sum(s: Seq<(Pubkey, u64)>, i: int)
    requires
        0 <= i < s.len(),
    ensures
        s[i].1 <= balance_sum(s),
    decreases s.len(),
{
    lemma_balance_sum_nonneg(s.drop_last());
    if i < s.len() - 1 {
        lemma_entry_within_sum(s.drop_last(), i);
    }
}

proof fn lemma_weighted_lower(s: Seq<(Pubkey, u64)>, pot: int, total: int)
    requires
        0 <= pot <= u64::MAX,
        total > 0,
        forall|i: int| 0 <= i < s.len() ==> (#[trigger] s[i]).1 <= total,
    ensures
        amount_sum(weighted(s, pot, total)) * total >= balance_sum(s) * pot - s.len() * (total - 1),
    decreases s.len(),
{
    if s.len() > 0 {
        let w = weighted(s, pot, total);
        let p = s.drop_last();
        assert(w.drop_last() =~= weighted(p, pot, total));
        assert forall|i: int| 0 <= i < p.len() implies (#[trigger] p[i]).1 <= total by {
            assert(p[i] == s[i]);
        }
        lemma_weighted_lower(p, pot, total);
        let x = s.last().1 as int;
        assert(x <= total);
        assert(x * pot <= u128::MAX) by (nonlinear_arith)
            requires 0 <= x <= u64::MAX, 0 <= pot <= u64::MAX;
        assert(x * pot / total <= pot) by (nonlinear_arith)
            requires 0 <= x <= total, 0 <= pot, total > 0;
        assert(x * pot >= 0) by (nonlinear_arith)
            requires 0 <= x, 0 <= pot;
        let q = x * pot / total;
        assert(share_spec(x, pot, total) == q);
        assert(w.last().1 == q);
        assert(q * total >= x * pot - (total - 1)) by (nonlinear_arith)
            requires q == x * pot / total, total > 0, x * pot >= 0;
        let a = amount_sum(w.drop_last());
        assert((a + q) * total == a * total + q * total) by (nonlinear_arith);
        assert(balance_sum(s) * pot == balance_sum(p) * pot + x * pot) by (nonlinear_arith)
            requires balance_sum(s) == balance_sum(p) + x;
        assert(s.len() * (total - 1) == p.len() * (total - 1) + (total - 1)) by (nonlinear_arith)
            requires s.len() == p.len() + 1;
    }
}

/// The shares of a pot, by weight, out of the sum of the weights, leave
/// less than one token per entry undistributed.
pub proof fn lemma_shares_lose_under_one_each(s: Seq<(Pubkey, u64)>, pot: int)
    requires
        0 <= pot <= u64::MAX,
        balance_sum(s) > 0,
    ensures
        amount_sum(weighted(s, pot, balance_sum(s))) >= pot - s.len() + 1,
        s.len() >= 1,
{
    let total = balance_sum(s);
    if s.len() == 0 {
        assert(false);
    }
    assert forall|i: int| 0 <= i < s.len() implies (#[trigger] s[i]).1 <= total by {
        lemma_entry_within_sum(s, i);
    }
    lemma_weighted_lower(s, pot, total);
    let a = amount_sum(weighted(s, pot, total));
    let m = s.len() as int;
    assert(a >= pot - m + 1) by (nonlinear_arith)
        requires a * total >= total * pot - m * (total - 1), total > 0, m >= 1;
}

proof fn lemma_three_way_lower(r: int, op: int, st: int)
    requires
        0 <= r,
        0 <= op,
        0 <= st,
        op + st <= 100,
    ensures
        r * (100 - op - st) / 100 + r * st / 100 + r * op / 100 >= r - 2,
{
    let a = r * (100 - op - st);
    let b = r * st;
    let c = r * op;
    assert(a >= 0 && b >= 0 && c >= 0) by (nonlinear_arith)
        requires a == r * (100 - op - st), b == r * st, c == r * op, 0 <= r, 0 <= op, 0 <= st, op
            + st <= 100;
    assert(a + b + c == r * 100) by (nonlinear_arith)
        requires a == r * (100 - op - st), b == r * st, c == r * op;
    assert((a / 100) * 100 > a - 100 && (b / 100) * 100 > b - 100 && (c / 100) * 100 > c - 100) by (nonlinear_arith)
        requires a >= 0, b >= 0, c >= 0;
}

/// How many stakers share a boost: those found for its mint when present.
pub open spec fn boost_staker_count(b: Option<BoostEvent>, s: Seq<(Pubkey, u64)>) -> int {
    match b {
        Some(_) => s.len() as int,
        None => 0,
    }
}

proof fn lemma_boost_split_lower(b: Option<BoostEvent>, s: Seq<(Pubkey, u64)>, op: int, st: int)
    requires
        0 <= op,
        0 <= st,
        op + st <= 100,
        b is Some ==> balance_sum(s) > 0,
    ensures
        boost_residual(b, op, st) + boost_staker_total(b, s, st) + boost_operator(b, op)
            >= boost_reward(b) - boost_staker_count(b, s) - 1,
{
    if let Some(e) = b {
        let r = e.reward as int;
        lemma_three_way_lower(r, op, st);
        lemma_three_way_split(r, op, st);
        lemma_shares_lose_under_one_each(s, r * st / 100);
    }
}

/// The attribution pays out all but the rounding residue: when at least one
/// contribution was accepted, every boost present has stakers with a
/// balance, and the rewards fit 64 bits, the amounts fall short of the
/// rewards by at most one token per miner and per staker, plus four.
pub proof fn lemma_attribution_slack(
    agg: Aggregator,
    rewards: Rewards,
    operator_commission: u64,
    staker_commission: u64,
    stakers_1: Seq<(Pubkey, u64)>,
    stakers_2: Seq<(Pubkey, u64)>,
    stakers_3: Seq<(Pubkey, u64)>,
)
    requires
        agg.wf(),
        operator_commission + staker_commission <= 100,
        agg.total_score > 0,
        rewards.base + boost_reward(rewards.boost_1) + boost_reward(rewards.boost_2) + boost_reward(
            rewards.boost_3,
        ) <= u64::MAX,
        rewards.boost_1 is Some ==> balance_sum(stakers_1) > 0,
        rewards.boost_2 is Some ==> balance_sum(stakers_2) > 0,
        rewards.boost_3 is Some ==> balance_sum(stakers_3) > 0,
    ensures
        amount_sum(
            miner_attribution(
                agg.contributions@,
                agg.total_score as int,
                miner_pot(rewards, operator_commission as int, staker_commission as int),
            ),
        ) + boost_staker_total(rewards.boost_1, stakers_1, staker_commission as int)
            + boost_staker_total(rewards.boost_2, stakers_2, staker_commission as int)
            + boost_staker_total(rewards.boost_3, stakers_3, staker_commission as int)
            + operator_amount(rewards, operator_commission as int) >= rewards.base + boost_reward(
            rewards.boost_1,
        ) + boost_reward(rewards.boost_2) + boost_reward(rewards.boost_3) - (agg.contributions@.len()
            + boost_staker_count(rewards.boost_1, stakers_1) + boost_staker_count(
            rewards.boost_2,
            stakers_2,
        ) + boost_staker_count(rewards.boost_3, stakers_3) + 4),
{
    let op = operator_commission as int;
    let st = staker_commission as int;
    lemma_boost_split(rewards.boost_1, stakers_1, op, st);
    lemma_boost_split(rewards.boost_2, stakers_2, op, st);
    lemma_boost_split(rewards.boost_3, stakers_3, op, st);
    lemma_boost_split_lower(rewards.boost_1, stakers_1, op, st);
    lemma_boost_split_lower(rewards.boost_2, stakers_2, op, st);
    lemma_boost_split_lower(rewards.boost_3, stakers_3, op, st);
    lemma_three_way_split(rewards.base as int, op, 0);
    lemma_three_way_lower(rewards.base as int, op, 0);
    let pot = miner_pot(rewards, op, st);
    let ws = weights_of(agg.contributions@);
    assert(ws.len() == agg.contributions@.len());
    lemma_shares_lose_under_one_each(ws, pot);
}

/// When the operator's and the stakers' commissions make up the whole, the
/// boosts leave nothing to the miners: their pot is their share of the base
/// reward alone.
pub proof fn lemma_full_commission_leaves_no_boost_to_miners(
    rewards: Rewards,
    operator_commission: u64,
    staker_commission: u64,
)
    requires
        operator_commission + staker_commission == 100,
    ensures
        boost_residual(rewards.boost_1, operator_commission as int, staker_commission as int) == 0,
        boost_residual(rewards.boost_2, operator_commission as int, staker_commission as int) == 0,
        boost_residual(rewards.boost_3, operator_commission as int, staker_commission as int) == 0,
        miner_pot(rewards, operator_commission as int, staker_commission as int) == rewards.base * (
        100 - operator_commission) / 100,
{
    lemma_no_residual(rewards.boost_1, operator_commission as int, staker_commission as int);
    lemma_no_residual(rewards.boost_2, operator_commission as int, staker_commission as int);
    lemma_no_residual(rewards.boost_3, operator_commission as int, staker_commission as int);
}

proof fn lemma_no_residual(b: Option<BoostEvent>, op: int, st: int)
    requires
        op + st == 100,
    ensures
        boost_residual(b, op, st) == 0,
{
    if let Some(e) = b {
        assert(e.reward * (100 - op - st) == 0) by (nonlinear_arith)
            requires op + st == 100;
    }
}

/// Index `i` holds the first snapshot entry for `mint`.
pub open spec fn first_entry_for(stake: Seq<(Pubkey, StakerBalances)>, mint: Pubkey, i: int) -> bool {
    &&& 0 <= i < stake.len()
    &&& stake[i].0 == mint
    &&& forall|j: int| 0 <= j < i ==> (#[trigger] stake[j]).0 != mint
}

/// The position of the first snapshot entry for `mint`, when there is one.
pub open spec fn mint_index(stake: Seq<(Pubkey, StakerBalances)>, mint: Pubkey) -> int {
    choose|i: int| first_entry_for(stake, mint, i)
}

/// The sum of the amounts of an attribution.
pub open spec fn amount_sum(s: Seq<(Pubkey, u64)>) -> int
    decreases s.len(),
{
    if s.len() == 0 {
        0
    } else {
        amount_sum(s.drop_last()) + s.last().1
    }
}

proof fn lemma_commission_product(a: int, c: int)
    requires
        0 <= a <= u64::MAX,
        0 <= c <= 100,
    ensures
        0 <= a * c <= 100 * (u64::MAX as int),
        0 <= a * c / 100 <= a,
{
    assert(0 <= a * c <= a * 100) by (nonlinear_arith)
        requires 0 <= a, 0 <= c <= 100;
    assert(a * c / 100 <= a * 100 / 100) by (nonlinear_arith)
        requires 0 <= a * c <= a * 100;
    assert(a * 100 / 100 == a) by (nonlinear_arith);
}

/// `min(a * b, u128::MAX)`.
fn saturating_mul(a: u128, b: u128) -> (r: u128)
    ensures
        r == min_int(a * b, u128::MAX as int),
{
    if a == 0 {
        0
    } else if b <= u128::MAX / a {
        proof {
            assert(a * b <= a * (u128::MAX / a)) by (nonlinear_arith)
                requires b <= u128::MAX / a, a > 0;
            assert(a * (u128::MAX / a) <= u128::MAX) by (nonlinear_arith)
                requires a > 0;
        }
        a * b
    } else {
        proof {
            assert(a * b > u128::MAX) by (nonlinear_arith)
                requires b > u128::MAX / a, a > 0;
        }
        u128::MAX
    }
}

/// A weight's share of a pot, `weight * pot / total` in 128-bit arithmetic;
/// 0 when `total` is 0.
pub fn share(weight: u64, pot: u128, total: u128) -> (r: u64)
    ensures
        r == share_spec(weight as int, pot as int, total as int),
{
    let product = saturating_mul(weight as u128, pot);
    if total == 0 {
        0
    } else {
        let q = product / total;
        if q > u64::MAX as u128 {
            u64::MAX
        } else {
            q as u64
        }
    }
}

/// Whether the operator's and the stakers' commissions are a valid
/// configuration: together at most 100 percent.
pub fn commissions_valid(operator_commission: u64, staker_commission: u64) -> (r: bool)
    ensures
        r == (operator_commission + staker_commission <= 100),
{
    operator_commission <= 100 && staker_commission <= 100 - operator_commission
}

impl Aggregator {
    /// What a boost leaves to the miners: `reward * (100 - op - st) / 100`,
    /// or 0 when the boost is absent.
    pub fn split_stake_rewards_for_miners(
        boost_event: Option<BoostEvent>,
        operator_commission: u64,
        staker_commission: u64,
    ) -> (r: u128)
        requires
            operator_commission + staker_commission <= 100,
        ensures
            r == boost_residual(boost_event, operator_commission as int, staker_commission as int),
            r <= boost_reward(boost_event),
    {
        match boost_event {
            Some(b) => {
                let commission: u128 = (100 - operator_commission - staker_commission) as u128;
                proof {
                    lemma_commission_product(b.reward as int, commission as int);
                }
                b.reward as u128 * commission / 100
            },
            None => 0,
        }
    }

    /// The miners' attribution: each accepted contribution's share, by score,
    /// of the miners' pot, which is the base reward less the operator's
    /// commission plus each boost's residual.
    pub fn rewards_distribution(
        &self,
        rewards: &Rewards,
        operator_commission: u64,
        staker_commission: u64,
    ) -> (r: Vec<(Pubkey, u64)>)
        requires
            operator_commission + staker_commission <= 100,
        ensures
            r@ == miner_attribution(
                self.contributions@,
                self.total_score as int,
                miner_pot(*rewards, operator_commission as int, staker_commission as int),
            ),
    {
        let denominator = self.total_score as u128;
        let miner_commission: u128 = (100 - operator_commission) as u128;
        proof {
            lemma_commission_product(rewards.base as int, miner_commission as int);
        }
        let miner_rewards: u128 = rewards.base as u128 * miner_commission / 100;
        let from_stake_1 = Self::split_stake_rewards_for_miners(
            rewards.boost_1,
            operator_commission,
            staker_commission,
        );
        let from_stake_2 = Self::split_stake_rewards_for_miners(
            rewards.boost_2,
            operator_commission,
            staker_commission,
        );
        let from_stake_3 = Self::split_stake_rewards_for_miners(
            rewards.boost_3,
            operator_commission,
            staker_commission,
        );
        let pot = miner_rewards + from_stake_1 + from_stake_2 + from_stake_3;
        let ghost expected = miner_attribution(
            self.contributions@,
            self.total_score as int,
            miner_pot(*rewards, operator_commission as int, staker_commission as int),
        );
        let mut out: Vec<(Pubkey, u64)> = Vec::new();
        let mut i: usize = 0;
        while i < self.contributions.len()
            invariant
                i <= self.contributions@.len(),
                pot == miner_pot(*rewards, operator_commission as int, staker_commission as int),
                denominator == self.total_score,
                expected.len() == self.contributions@.len(),
                expected == miner_attribution(
                    self.contributions@,
                    self.total_score as int,
                    miner_pot(*rewards, operator_commission as int, staker_commission as int),
                ),
                out@ =~= expected.subrange(0, i as int),
            decreases self.contributions@.len() - i,
        {
            let c = &self.contributions[i];
            out.push((c.member, share(c.score, pot, denominator)));
            i = i + 1;
        }
        out
    }

    /// The stakers' attribution for one boost: each staker's share, by
    /// balance, of the boost's staker commission. Empty when the boost is
    /// absent; an error when the snapshot has no balances for its mint.
    pub fn rewards_distribution_boost(
        &self,
        boost_event: Option<BoostEvent>,
        staker_commission: u64,
    ) -> (r: Result<Vec<(Pubkey, u64)>, RoundError>)
        requires
            staker_commission <= 100,
        ensures
            boost_event is None ==> (r matches Ok(v) && v@.len() == 0),
            boost_event matches Some(b) ==> (r is Err <==> forall|i: int|
                0 <= i < self.stake@.len() ==> (#[trigger] self.stake@[i]).0 != b.mint),
            r matches Err(e) ==> e == RoundError::MissingStakerBalances,
            boost_event matches Some(b) ==> (r matches Ok(v) ==> v@ == staker_attribution(
                self.stake@[mint_index(self.stake@, b.mint)].1@,
                b.reward * staker_commission / 100,
            )),
    {
        match boost_event {
            None => Ok(Vec::new()),
            Some(b) => {
                proof {
                    lemma_commission_product(b.reward as int, staker_commission as int);
                }
                let pot: u128 = b.reward as u128 * staker_commission as u128 / 100;
                let mut k: usize = 0;
                while k < self.stake.len()
                    invariant
                        boost_event == Some(b),
                        pot == b.reward * staker_commission / 100,
                        k <= self.stake@.len(),
                        forall|j: int| 0 <= j < k ==> (#[trigger] self.stake@[j]).0 != b.mint,
                    decreases self.stake@.len() - k,
                {
                    if crate::model::compare_keys(&self.stake[k].0, &b.mint) == 0 {
                        let v = staker_distribution(&self.stake[k].1, pot);
                        assert(self.stake@[k as int].0 == b.mint);
                        assert(first_entry_for(self.stake@, b.mint, k as int));
                        assert(v@ == staker_attribution(
                            self.stake@[k as int].1@,
                            b.reward * staker_commission / 100,
                        ));
                        assert(!(forall|i: int|
                            0 <= i < self.stake@.len() ==> (#[trigger] self.stake@[i]).0 != b.mint));
                        proof {
                            let j = mint_index(self.stake@, b.mint);
                            assert(first_entry_for(self.stake@, b.mint, j));
                            if j < k {
                                assert(self.stake@[j].0 != b.mint);
                            }
                            if j > k {
                                assert(self.stake@[k as int].0 != b.mint);
                            }
                        }
                        return Ok(v);
                    }
                    k = k + 1;
                }
                Err(RoundError::MissingStakerBalances)
            },
        }
    }

    /// The operator's attribution: its commission on the base reward and on
    /// each boost present, addressed to the operator.
    pub fn rewards_distribution_operator(
        &self,
        operator: Pubkey,
        rewards: &Rewards,
        operator_commission: u64,
    ) -> (r: (Pubkey, u64))
        requires
            operator_commission <= 100,
        ensures
            r == (operator, operator_amount(*rewards, operator_commission as int) as u64),
    {
        let op = operator_commission as u128;
        proof {
            lemma_commission_product(rewards.base as int, op as int);
            if let Some(b) = rewards.boost_1 {
                lemma_commission_product(b.reward as int, op as int);
            }
            if let Some(b) = rewards.boost_2 {
                lemma_commission_product(b.reward as int, op as int);
            }
            if let Some(b) = rewards.boost_3 {
                lemma_commission_product(b.reward as int, op as int);
            }
        }
        let mine_rewards: u128 = rewards.base as u128 * op / 100;
        let mut stake_rewards: u128 = 0;
        if let Some(b) = rewards.boost_1 {
            stake_rewards = stake_rewards + b.reward as u128 * op / 100;
        }
        if let Some(b) = rewards.boost_2 {
            stake_rewards = stake_rewards + b.reward as u128 * op / 100;
        }
        if let Some(b) = rewards.boost_3 {
            stake_rewards = stake_rewards + b.reward as u128 * op / 100;
        }
        let total = mine_rewards + stake_rewards;
        let amount = if total > u64::MAX as u128 {
            u64::MAX
        } else {
            total as u64
        };
        (operator, amount)
    }
}

/// The sum of the balances, in 128-bit arithmetic.
pub fn balance_total(s: &StakerBalances) -> (r: u128)
    ensures
        r == balance_sum(s@),
{
    let mut sum: u128 = 0;
    let mut i: usize = 0;
    while i < s.len()
        invariant
            i <= s@.len(),
            sum == balance_sum(s@.subrange(0, i as int)),
            sum <= i * 0xFFFF_FFFF_FFFF_FFFFu128,
        decreases s@.len() - i,
    {
        proof {
            assert(s@.subrange(0, i + 1).drop_last() =~= s@.subrange(0, i as int));
        }
        sum = sum + s[i].1 as u128;
        i = i + 1;
    }
    assert(s@.subrange(0, s@.len() as int) =~= s@);
    sum
}

/// Each staker's share, by balance, of the pot.
pub fn staker_distribution(s: &StakerBalances, pot: u128) -> (r: Vec<(Pubkey, u64)>)
    ensures
        r@ == staker_attribution(s@, pot as int),
{
    let denominator = balance_total(s);
    let ghost expected = staker_attribution(s@, pot as int);
    let mut out: Vec<(Pubkey, u64)> = Vec::new();
    let mut i: usize = 0;
    while i < s.len()
        invariant
            i <= s@.len(),
            denominator == balance_sum(s@),
            expected.len() == s@.len(),
            expected == staker_attribution(s@, pot as int),
            out@ =~= expected.subrange(0, i as int),
        decreases s@.len() - i,
    {
        let e = &s[i];
        out.push((e.0, share(e.1, pot, denominator)));
        i = i + 1;
    }
    out
}

} // verus!
