use vstd::prelude::*;

use crate::attest::{attestation_of, record_of};
use crate::model::{
    compare_keys, key_lt, lemma_key_order, Challenge, Contribution, Pubkey, RoundError, Winner,
};
use crate::rewards::{balance_sum, lemma_balance_sum_insert, weights_of};
use crate::trusted::{difficulty_of, sha3_256_of, solution_difficulty};

verus! {

broadcast use vstd::seq_lib::group_to_multiset_ensures;

/// Balances staked by each stake authority, for one boost mint.
pub type StakerBalances = Vec<(Pubkey, u64)>;

/// The stake snapshot of a round: for each boost mint, its stakers' balances.
pub type Stakers = Vec<(Pubkey, StakerBalances)>;

/// An accepted contribution together with the difficulty of its solution.
pub type Entry = (Contribution, u32);

/// Whether some entry of `acc` comes from member `m`.
pub open spec fn has_member(acc: Seq<Entry>, m: Pubkey) -> bool {
    exists|i: int| 0 <= i < acc.len() && (#[trigger] acc[i]).0.member == m
}

/// The accepted entries after `c` arrives: a member's first contribution is
/// kept, any later one is dropped.
pub open spec fn accept(acc: Seq<Entry>, c: Contribution, difficulty: u32) -> Seq<Entry> {
    if has_member(acc, c.member) {
        acc
    } else {
        acc.push((c, difficulty))
    }
}

/// The accepted entries, in order of arrival, after a sequence of arrivals.
pub open spec fn accept_all(events: Seq<Entry>) -> Seq<Entry>
    decreases events.len(),
{
    if events.len() == 0 {
        Seq::empty()
    } else {
        let e = events.last();
        accept(accept_all(events.drop_last()), e.0, e.1)
    }
}

/// The sum of the scores of the entries.
pub open spec fn sum_scores(acc: Seq<Entry>) -> int
    decreases acc.len(),
{
    if acc.len() == 0 {
        0
    } else {
        sum_scores(acc.drop_last()) + acc.last().0.score
    }
}

/// The winner after the entries arrived in order: replaced only by a strictly
/// greater difficulty.
pub open spec fn winner_of(acc: Seq<Entry>) -> Option<Winner>
    decreases acc.len(),
{
    if acc.len() == 0 {
        None
    } else {
        let e = acc.last();
        let contender = Winner { solution: e.0.solution, difficulty: e.1 };
        match winner_of(acc.drop_last()) {
            Some(w) => if e.1 > w.difficulty {
                Some(contender)
            } else {
                Some(w)
            },
            None => Some(contender),
        }
    }
}

/// The contributions of the entries.
pub open spec fn contributions_of(acc: Seq<Entry>) -> Seq<Contribution> {
    acc.map_values(|e: Entry| e.0)
}

/// Contributions sorted strictly by member.
pub open spec fn sorted_by_member(s: Seq<Contribution>) -> bool {
    forall|i: int, j: int| 0 <= i < j < s.len() ==> key_lt(#[trigger] s[i].member, #[trigger] s[j].member)
}

/// Within a round, a member is credited with exactly its first contribution:
/// at most one accepted entry comes from a member, it is that member's first
/// arrival, and every accepted entry is one of the arrivals.
pub proof fn lemma_dedup(events: Seq<Entry>, m: Pubkey)
    ensures
        forall|i: int, j: int|
            0 <= i < accept_all(events).len() && 0 <= j < accept_all(events).len()
                && (#[trigger] accept_all(events)[i]).0.member == m
                && (#[trigger] accept_all(events)[j]).0.member == m ==> i == j,
        forall|k: int|
            0 <= k < events.len() && (#[trigger] events[k]).0.member == m && (forall|j: int|
                0 <= j < k ==> (#[trigger] events[j]).0.member != m) ==> accept_all(events).contains(
                events[k],
            ),
        forall|i: int|
            0 <= i < accept_all(events).len() ==> events.contains(#[trigger] accept_all(events)[i]),
    decreases events.len(),
{
    if events.len() > 0 {
        let pre = events.drop_last();
        let e = events.last();
        let a = accept_all(pre);
        lemma_dedup(pre, m);
        lemma_dedup(pre, e.0.member);
        assert forall|i: int| 0 <= i < a.len() implies events.contains(#[trigger] a[i]) by {
            let k = choose|k: int| 0 <= k < pre.len() && pre[k] == a[i];
            assert(events[k] == a[i]);
        }
        assert forall|k: int|
            0 <= k < events.len() && (#[trigger] events[k]).0.member == m && (forall|j: int|
                0 <= j < k ==> (#[trigger] events[j]).0.member != m) implies accept_all(
            events,
        ).contains(events[k]) by {
            if k < pre.len() {
                assert(pre[k] == events[k]);
                assert forall|j: int| 0 <= j < k implies (#[trigger] pre[j]).0.member != m by {
                    assert(pre[j] == events[j]);
                }
                let i = choose|i: int| 0 <= i < a.len() && a[i] == events[k];
                if !has_member(a, e.0.member) {
                    assert(accept_all(events)[i] == a[i]);
                }
            } else {
                if has_member(a, m) {
                    let i = choose|i: int| 0 <= i < a.len() && (#[trigger] a[i]).0.member == m;
                    let kk = choose|kk: int| 0 <= kk < pre.len() && pre[kk] == a[i];
                    assert(events[kk] == pre[kk]);
                }
                assert(accept_all(events).last() == events[k]);
            }
        }
    }
}

/// When every arrival of a round comes from one member, the round holds the
/// first of them alone, and the total score is that one's score.
pub proof fn lemma_one_member_counts_once(events: Seq<Entry>, m: Pubkey)
    requires
        events.len() > 0,
        forall|k: int| 0 <= k < events.len() ==> (#[trigger] events[k]).0.member == m,
    ensures
        accept_all(events) == seq![events[0]],
        sum_scores(accept_all(events)) == events[0].0.score,
    decreases events.len(),
{
    let pre = events.drop_last();
    if events.len() == 1 {
        assert(pre =~= Seq::<Entry>::empty());
        assert(accept_all(pre) =~= Seq::<Entry>::empty());
        assert(accept_all(events) =~= seq![events[0]]);
    } else {
        assert forall|k: int| 0 <= k < pre.len() implies (#[trigger] pre[k]).0.member == m by {
            assert(pre[k] == events[k]);
        }
        lemma_one_member_counts_once(pre, m);
        assert(pre[0] == events[0]);
        let a = accept_all(pre);
        assert(a[0].0.member == events.last().0.member);
        assert(has_member(a, events.last().0.member));
    }
    let r = accept_all(events);
    assert(r.drop_last() =~= Seq::<Entry>::empty());
    assert(sum_scores(r.drop_last()) == 0);
    assert(r.last() == events[0]);
}

/// The winner carries the greatest difficulty among the entries, and it is
/// the first entry that reached it.
pub proof fn lemma_winner_is_first_max(acc: Seq<Entry>)
    ensures
        winner_of(acc) is None <==> acc.len() == 0,
        winner_of(acc) matches Some(w) ==> {
            &&& forall|i: int| 0 <= i < acc.len() ==> (#[trigger] acc[i]).1 <= w.difficulty
            &&& exists|i: int|
                0 <= i < acc.len() && (#[trigger] acc[i]).0.solution == w.solution && acc[i].1
                    == w.difficulty && forall|j: int| 0 <= j < i ==> (#[trigger] acc[j]).1 < w.difficulty
        },
    decreases acc.len(),
{
    if acc.len() > 0 {
        let pre = acc.drop_last();
        lemma_winner_is_first_max(pre);
        let w = winner_of(acc).unwrap();
        let n = acc.len() - 1;
        match winner_of(pre) {
            Some(pw) => {
                let i = choose|i: int|
                    0 <= i < pre.len() && (#[trigger] pre[i]).0.solution == pw.solution && pre[i].1
                        == pw.difficulty && forall|j: int|
                        0 <= j < i ==> (#[trigger] pre[j]).1 < pw.difficulty;
                if acc.last().1 > pw.difficulty {
                    assert forall|j: int| 0 <= j < n implies (#[trigger] acc[j]).1 < w.difficulty by {
                        assert(acc[j] == pre[j]);
                    }
                    assert(acc[n].0.solution == w.solution);
                } else {
                    assert(acc[i] == pre[i]);
                    assert forall|j: int| 0 <= j < i implies (#[trigger] acc[j]).1 < w.difficulty by {
                        assert(acc[j] == pre[j]);
                    }
                }
                assert forall|j: int| 0 <= j < acc.len() implies (#[trigger] acc[j]).1 <= w.difficulty by {
                    if j < n {
                        assert(acc[j] == pre[j]);
                    }
                }
            },
            None => {
                assert(acc[0].0.solution == w.solution);
            },
        }
    }
}

proof fn lemma_sorted_equal(s: Seq<Contribution>, t: Seq<Contribution>)
    requires
        sorted_by_member(s),
        sorted_by_member(t),
        s.to_multiset() == t.to_multiset(),
    ensures
        s == t,
    decreases s.len(),
{
    if s.len() == 0 {
        if t.len() > 0 {
            assert(t.contains(t[0]));
            assert(t.to_multiset().count(t[0]) > 0);
        }
        assert(s =~= t);
    } else {
        assert(s.contains(s.last()));
        assert(s.to_multiset().count(s.last()) > 0);
        assert(t.contains(s.last()));
        assert(t.len() > 0);
        assert(t.contains(t.last()));
        assert(t.to_multiset().count(t.last()) > 0);
        assert(s.contains(t.last()));
        let j = choose|j: int| 0 <= j < t.len() && t[j] == s.last();
        let k = choose|k: int| 0 <= k < s.len() && s[k] == t.last();
        if j < t.len() - 1 {
            assert(key_lt(t[j].member, t[t.len() - 1].member));
            if k < s.len() - 1 {
                assert(key_lt(s[k].member, s[s.len() - 1].member));
                lemma_key_order(s.last().member, t.last().member, s.last().member);
            } else {
                lemma_key_order(s.last().member, s.last().member, s.last().member);
            }
        }
        assert(s.last() == t.last());
        let s0 = s.drop_last();
        let t0 = t.drop_last();
        assert(s0.push(s.last()) =~= s);
        assert(t0.push(t.last()) =~= t);
        assert(s0.to_multiset() =~= s.to_multiset().remove(s.last()));
        assert(t0.to_multiset() =~= t.to_multiset().remove(t.last()));
        assert(sorted_by_member(s0));
        assert(sorted_by_member(t0));
        lemma_sorted_equal(s0, t0);
        assert(s =~= t);
    }
}

/// The attestation commits to the set of contributions alone: two rounds
/// that accepted the same contributions, in whatever order they arrived,
/// publish the same attestation, the SHA3-256 digest of their lines sorted
/// by member.
pub proof fn lemma_attestation_canonical(a: Aggregator, b: Aggregator)
    requires
        a.wf(),
        b.wf(),
        contributions_of(a.accepted@).to_multiset() == contributions_of(b.accepted@).to_multiset(),
    ensures
        a.contributions@ == b.contributions@,
        a.attestation_spec() == b.attestation_spec(),
        a.attestation_spec() == sha3_256_of(record_of(a.contributions@)),
{
    lemma_sorted_equal(a.contributions@, b.contributions@);
}

/// Aggregates the contributions of the pool's members for one challenge.
pub struct Aggregator {
    /// The current challenge.
    pub challenge: Challenge,
    /// The accepted contributions, sorted by member.
    pub contributions: Vec<Contribution>,
    /// The sum of the scores of the accepted contributions.
    pub total_score: u64,
    /// The best solution accepted so far.
    pub winner: Option<Winner>,
    /// The number of members registered with the pool when the round began.
    pub num_members: u64,
    /// The stake snapshot taken when the round began.
    pub stake: Stakers,
    /// The accepted contributions in order of arrival, with their difficulties.
    pub accepted: Ghost<Seq<Entry>>,
}

impl Aggregator {
    /// The round state is consistent with the contributions accepted in it.
    pub open spec fn wf(&self) -> bool {
        &&& sorted_by_member(self.contributions@)
        &&& self.contributions@.to_multiset() == contributions_of(self.accepted@).to_multiset()
        &&& self.total_score == sum_scores(self.accepted@)
        &&& self.total_score == balance_sum(weights_of(self.contributions@))
        &&& self.winner == winner_of(self.accepted@)
    }

    /// Starts a round with no contributions.
    pub fn new(challenge: Challenge, num_members: u64, stake: Stakers) -> (r: Self)
        ensures
            r.wf(),
            r.challenge == challenge,
            r.num_members == num_members,
            r.stake == stake,
            r.contributions@.len() == 0,
            r.total_score == 0,
            r.winner is None,
            r.accepted@.len() == 0,
    {
        let r = Aggregator {
            challenge,
            contributions: Vec::new(),
            total_score: 0,
            winner: None,
            num_members,
            stake,
            accepted: Ghost(Seq::empty()),
        };
        assert(contributions_of(r.accepted@) =~= Seq::empty());
        assert(weights_of(r.contributions@) =~= Seq::empty());
        r
    }

    /// The attestation of the round: the SHA3-256 digest of one line per
    /// accepted contribution, in order of member.
    pub open spec fn attestation_spec(&self) -> Seq<u8> {
        sha3_256_of(record_of(self.contributions@))
    }

    /// Commits to the accepted contributions: SHA3-256 over their lines
    /// `"{member base58} {hex(d)} {le_u64(n)}\n"`, sorted by member.
    pub fn attestation(&self) -> (r: [u8; 32])
        ensures
            r@ == self.attestation_spec(),
    {
        attestation_of(&self.contributions)
    }

    /// The best solution of the round; an error when nothing was accepted.
    pub fn winner(&self) -> (r: Result<Winner, RoundError>)
        ensures
            self.winner matches Some(w) ==> r == Ok::<Winner, RoundError>(w),
            self.winner is None ==> r == Err::<Winner, RoundError>(RoundError::NoSolutions),
    {
        match self.winner {
            Some(w) => Ok(w),
            None => Err(RoundError::NoSolutions),
        }
    }

    /// Starts the next round on a new challenge: no contribution, no score,
    /// no winner, and the pool's current member count. The stake snapshot
    /// is kept.
    pub fn reset(&mut self, challenge: Challenge, num_members: u64)
        ensures
            final(self).wf(),
            final(self).challenge == challenge,
            final(self).num_members == num_members,
            final(self).stake == old(self).stake,
            final(self).contributions@.len() == 0,
            final(self).total_score == 0,
            final(self).winner is None,
            final(self).accepted@.len() == 0,
    {
        self.challenge = challenge;
        self.contributions = Vec::new();
        self.total_score = 0;
        self.winner = None;
        self.num_members = num_members;
        self.accepted = Ghost(Seq::empty());
        assert(contributions_of(self.accepted@) =~= Seq::empty());
        assert(weights_of(self.contributions@) =~= Seq::empty());
    }

    /// Takes what the chain shows after a submission: when the pool's
    /// `last_hash_at` moved past the stored one, starts the next round on the
    /// new challenge and returns `true`; otherwise changes nothing.
    pub fn update_challenge(
        &mut self,
        challenge_digest: [u8; 32],
        pool_last_hash_at: i64,
        min_difficulty: u64,
        cutoff_time: u64,
        num_members: u64,
    ) -> (advanced: bool)
        requires
            old(self).wf(),
        ensures
            final(self).wf(),
            advanced == (pool_last_hash_at != old(self).challenge.last_hash_at),
            !advanced ==> *final(self) == *old(self),
            advanced ==> final(self).challenge == (Challenge {
                challenge: challenge_digest,
                last_hash_at: pool_last_hash_at,
                min_difficulty,
                cutoff_time,
            }),
            advanced ==> final(self).num_members == num_members,
            advanced ==> final(self).stake == old(self).stake,
            advanced ==> final(self).contributions@.len() == 0 && final(self).total_score == 0
                && final(self).winner is None,
    {
        if pool_last_hash_at == self.challenge.last_hash_at {
            return false;
        }
        let next = Challenge {
            challenge: challenge_digest,
            last_hash_at: pool_last_hash_at,
            min_difficulty,
            cutoff_time,
        };
        self.reset(next, num_members);
        true
    }

    /// Whether member `m` already contributed in this round.
    pub open spec fn has_member(&self, m: Pubkey) -> bool {
        has_member(self.accepted@, m)
    }

    proof fn lemma_members_agree(&self, m: Pubkey)
        requires
            self.wf(),
        ensures
            self.has_member(m) <==> exists|i: int|
                0 <= i < self.contributions@.len() && (#[trigger] self.contributions@[i]).member == m,
    {
        let v = self.contributions@;
        let acc = self.accepted@;
        let cs = contributions_of(acc);
        if self.has_member(m) {
            let k = choose|k: int| 0 <= k < acc.len() && (#[trigger] acc[k]).0.member == m;
            assert(cs[k] == acc[k].0);
            assert(cs.contains(cs[k]));
            assert(cs.to_multiset().count(cs[k]) > 0);
            assert(v.contains(cs[k]));
        }
        if exists|i: int| 0 <= i < v.len() && (#[trigger] v[i]).member == m {
            let i = choose|i: int| 0 <= i < v.len() && (#[trigger] v[i]).member == m;
            assert(v.contains(v[i]));
            assert(v.to_multiset().count(v[i]) > 0);
            assert(cs.contains(v[i]));
            let k = choose|k: int| 0 <= k < cs.len() && cs[k] == v[i];
            assert(acc[k].0.member == m);
        }
    }

    /// Whether member `m` already contributed in this round.
    pub fn contains_member(&self, m: &Pubkey) -> (r: bool)
        requires
            self.wf(),
        ensures
            r == self.has_member(*m),
    {
        proof {
            self.lemma_members_agree(*m);
        }
        let mut i: usize = 0;
        while i < self.contributions.len()
            invariant
                self.wf(),
                i <= self.contributions@.len(),
                forall|j: int| 0 <= j < i ==> (#[trigger] self.contributions@[j]).member != *m,
            decreases self.contributions@.len() - i,
        {
            if compare_keys(&self.contributions[i].member, m) == 0 {
                proof {
                    self.lemma_members_agree(*m);
                    assert(self.contributions@[i as int].member == *m);
                }
                return true;
            }
            i = i + 1;
        }
        false
    }

    /// Records a contribution; its solution's difficulty is computed by drillx.
    /// A member's first contribution of the round is kept; a later one is
    /// ignored and `false` is returned.
    pub fn insert(&mut self, c: &Contribution) -> (inserted: bool)
        requires
            old(self).wf(),
            !old(self).has_member(c.member) ==> old(self).total_score + c.score <= u64::MAX,
        ensures
            final(self).wf(),
            final(self).accepted@ == accept(
                old(self).accepted@,
                *c,
                solution_difficulty(c.solution.d@, c.solution.n@),
            ),
            inserted == !old(self).has_member(c.member),
            final(self).challenge == old(self).challenge,
            final(self).num_members == old(self).num_members,
            final(self).stake == old(self).stake,
            !inserted ==> final(self).contributions@ == old(self).contributions@
                && final(self).total_score == old(self).total_score
                && final(self).winner == old(self).winner,
            inserted ==> final(self).total_score == old(self).total_score + c.score,
    {
        let difficulty = difficulty_of(&c.solution);
        self.insert_scored(c, difficulty)
    }

    /// Records a contribution whose solution has difficulty `difficulty`.
    /// A member's first contribution of the round is kept; a later one is
    /// ignored and `false` is returned. The winner is replaced only by a
    /// strictly greater difficulty.
    pub fn insert_scored(&mut self, c: &Contribution, difficulty: u32) -> (inserted: bool)
        requires
            old(self).wf(),
            !old(self).has_member(c.member) ==> old(self).total_score + c.score <= u64::MAX,
        ensures
            final(self).wf(),
            final(self).accepted@ == accept(old(self).accepted@, *c, difficulty),
            inserted == !old(self).has_member(c.member),
            final(self).challenge == old(self).challenge,
            final(self).num_members == old(self).num_members,
            final(self).stake == old(self).stake,
            !inserted ==> final(self).contributions@ == old(self).contributions@
                && final(self).total_score == old(self).total_score
                && final(self).winner == old(self).winner,
            inserted ==> final(self).contributions@.to_multiset()
                == old(self).contributions@.to_multiset().insert(*c),
            inserted ==> final(self).total_score == old(self).total_score + c.score,
            inserted ==> final(self).winner == Some(
                match old(self).winner {
                    Some(w) => if difficulty > w.difficulty {
                        Winner { solution: c.solution, difficulty }
                    } else {
                        w
                    },
                    None => Winner { solution: c.solution, difficulty },
                },
            ),
    {
        proof {
            self.lemma_members_agree(c.member);
        }
        let m = c.member;
        let len = self.contributions.len();
        let mut i: usize = 0;
        let mut cmp: i8 = -1;
        while i < len && cmp < 0
            invariant
                len == self.contributions@.len(),
                i <= len,
                forall|j: int| 0 <= j < i ==> key_lt(#[trigger] self.contributions@[j].member, m),
                cmp >= 0 ==> i < len,
                cmp == 0 ==> self.contributions@[i as int].member == m,
                cmp > 0 ==> key_lt(m, self.contributions@[i as int].member),
            decreases len - i + if cmp < 0 { 1int } else { 0int },
        {
            let r = compare_keys(&self.contributions[i].member, &m);
            if r >= 0 {
                cmp = r;
            } else {
                i = i + 1;
            }
        }
        if cmp == 0 {
            return false;
        }
        let ghost old_v = self.contributions@;
        proof {
            assert forall|j: int| i <= j < len implies key_lt(m, #[trigger] old_v[j].member) by {
                lemma_key_order(m, old_v[i as int].member, old_v[j].member);
            }
            assert forall|j: int| 0 <= j < len implies (#[trigger] old_v[j]).member != m by {
                lemma_key_order(m, old_v[j].member, m);
            }
        }
        self.contributions.insert(i, *c);
        proof {
            lemma_balance_sum_insert(weights_of(old_v), i as int, (c.member, c.score));
            assert(weights_of(self.contributions@) =~= weights_of(old_v).insert(
                i as int,
                (c.member, c.score),
            ));
            let v = self.contributions@;
            assert forall|a: int, b: int| 0 <= a < b < v.len() implies key_lt(
                #[trigger] v[a].member,
                #[trigger] v[b].member,
            ) by {
                if b < i {
                } else if a < i && b == i {
                } else if a < i {
                    assert(v[b] == old_v[b - 1]);
                } else if a == i {
                    assert(v[b] == old_v[b - 1]);
                } else {
                    assert(v[a] == old_v[a - 1]);
                    assert(v[b] == old_v[b - 1]);
                }
            }
            let old_acc = self.accepted@;
            self.accepted@ = old_acc.push((*c, difficulty));
            assert(contributions_of(self.accepted@) =~= contributions_of(old_acc).push(*c));
            assert(self.accepted@.drop_last() =~= old_acc);
        }
        self.total_score = self.total_score + c.score;
        let contender = Winner { solution: c.solution, difficulty };
        match self.winner {
            Some(w) => {
                if difficulty > w.difficulty {
                    self.winner = Some(contender);
                }
            },
            None => {
                self.winner = Some(contender);
            },
        }
        true
    }
}

} // verus!
