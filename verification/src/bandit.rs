//! The epsilon-greedy bandit: per-action reward history, exact value
//! estimates, and the greedy / non-greedy action partition.

use vstd::prelude::*;

verus! {

/// Largest reward magnitude the bandit accepts (fixed-point units).
pub const MAX_REWARD: i64 = 0x8000_0000;

/// Largest number of rewards one action's history can hold.
pub const MAX_HISTORY: usize = 0x8000_0000;

/// Largest magnitude a history sum can reach: `MAX_HISTORY * MAX_REWARD`.
pub const MAX_SUM: i64 = 0x4000_0000_0000_0000;

/// Sum of all rewards in one action's history.
pub open spec fn sum_of(s: Seq<i64>) -> int
    decreases s.len(),
{
    if s.len() == 0 {
        0
    } else {
        sum_of(s.drop_last()) + s.last()
    }
}

/// Numerator of the exact value estimate for a history: its sum.
pub open spec fn est_num(h: Seq<i64>) -> int {
    sum_of(h)
}

/// Denominator of the exact value estimate for a history: its length,
/// except that an empty history estimates to 0, written as 0 / 1.
pub open spec fn est_den(h: Seq<i64>) -> int {
    if h.len() == 0 {
        1
    } else {
        h.len() as int
    }
}

/// The estimate of `h1` is at most the estimate of `h2`: the exact rational
/// comparison `sum_of(h1) / est_den(h1) <= sum_of(h2) / est_den(h2)`,
/// cross-multiplied (denominators are positive).
pub open spec fn est_le(h1: Seq<i64>, h2: Seq<i64>) -> bool {
    est_num(h1) * est_den(h2) <= est_num(h2) * est_den(h1)
}

/// An exactly represented value estimate: the arithmetic mean
/// `sum / count` of the rewards recorded for one action, or 0 when
/// nothing is recorded yet.
#[derive(Clone, Copy, Debug, PartialEq, Eq, Structural)]
pub struct Estimate {
    pub sum: i64,
    pub count: usize,
}

impl Estimate {
    /// Numerator of the estimate.
    pub open spec fn num(self) -> int {
        self.sum as int
    }

    /// Denominator of the estimate (1 for an empty history, so the
    /// estimate of an empty history is exactly 0).
    pub open spec fn den(self) -> int {
        if self.count == 0 {
            1
        } else {
            self.count as int
        }
    }

    /// Bounds under which the exact comparisons below cannot overflow.
    pub open spec fn bounded(self) -> bool {
        &&& self.count <= MAX_HISTORY
        &&& -MAX_SUM <= self.sum <= MAX_SUM
    }

    /// Exact comparison: this estimate is at most `other`.
    pub fn ratio_le(self, other: Estimate) -> (r: bool)
        requires
            self.bounded(),
            other.bounded(),
        ensures
            r == (self.num() * other.den() <= other.num() * self.den()),
    {
        let a: i128 = self.sum as i128;
        let b: i128 = other.sum as i128;
        let da: i128 = if self.count == 0 { 1 } else { self.count as i128 };
        let db: i128 = if other.count == 0 { 1 } else { other.count as i128 };
        proof {
            lemma_prod_in_range(a as int, db as int);
            lemma_prod_in_range(b as int, da as int);
        }
        a * db <= b * da
    }

    /// Exact comparison: this estimate is strictly below `other`.
    pub fn ratio_lt(self, other: Estimate) -> (r: bool)
        requires
            self.bounded(),
            other.bounded(),
        ensures
            r == (self.num() * other.den() < other.num() * self.den()),
    {
        !other.ratio_le(self)
    }

    /// Exact comparison: the two estimates denote the same rational.
    pub fn ratio_eq(self, other: Estimate) -> (r: bool)
        requires
            self.bounded(),
            other.bounded(),
        ensures
            r == (self.num() * other.den() == other.num() * self.den()),
    {
        self.ratio_le(other) && other.ratio_le(self)
    }
}

/// Action `a` attains the maximum estimate among the histories `h` of
/// `n` actions: no action's estimate exceeds its own.
pub open spec fn greedy_for(n: int, h: Seq<Seq<i64>>, a: int) -> bool {
    &&& 0 <= a < n
    &&& forall|j: int| 0 <= j < n ==> est_le(#[trigger] h[j], h[a])
}

/// An epsilon-greedy bandit over `arm_count` actions.
///
/// The exploration probability is the exact rational
/// `eps_num / eps_den`; values at or above 1 force exploration and 0
/// forbids it, mirroring the usual degenerate readings of epsilon.
pub struct EpsilonGreedyBandit {
    /// Number of selectable actions; fixed at construction.
    pub arm_count: usize,
    /// One append-only reward history per action.
    pub past_rewards: Vec<Vec<i64>>,
    /// Numerator of the exploration probability.
    pub eps_num: u64,
    /// Denominator of the exploration probability; always positive.
    pub eps_den: u64,
}

impl EpsilonGreedyBandit {
    /// The reward histories as a sequence of sequences.
    pub open spec fn hist(self) -> Seq<Seq<i64>> {
        Seq::new(self.past_rewards@.len() as nat, |a: int| self.past_rewards@[a]@)
    }

    /// Well-formedness: one bounded history per action, at least one
    /// action, and a positive epsilon denominator.
    pub open spec fn wf(self) -> bool {
        &&& 0 < self.arm_count
        &&& 0 < self.eps_den
        &&& self.past_rewards@.len() == self.arm_count
        &&& forall|a: int|
            0 <= a < self.arm_count ==> #[trigger] self.hist()[a].len() <= MAX_HISTORY
        &&& forall|a: int, k: int|
            0 <= a < self.arm_count && 0 <= k < self.hist()[a].len() ==> -MAX_REWARD
                <= #[trigger] self.hist()[a][k] <= MAX_REWARD
    }

    /// Action `a` attains the maximum estimate: no action's estimate
    /// exceeds its own.
    pub open spec fn is_greedy(self, a: int) -> bool {
        greedy_for(self.arm_count as int, self.hist(), a)
    }

    /// A fresh bandit: every action starts with an empty reward history.
    pub fn new(arm_count: usize, eps_num: u64, eps_den: u64) -> (b: EpsilonGreedyBandit)
        requires
            0 < arm_count,
            0 < eps_den,
        ensures
            b.wf(),
            b.arm_count == arm_count,
            b.eps_num == eps_num,
            b.eps_den == eps_den,
            forall|a: int| 0 <= a < arm_count ==> #[trigger] b.hist()[a] == Seq::<i64>::empty(),
    {
        let mut past_rewards: Vec<Vec<i64>> = Vec::new();
        let mut i: usize = 0;
        while i < arm_count
            invariant
                i <= arm_count,
                past_rewards@.len() == i,
                forall|a: int| 0 <= a < i ==> #[trigger] past_rewards@[a]@ == Seq::<i64>::empty(),
            decreases arm_count - i,
        {
            past_rewards.push(Vec::new());
            i += 1;
        }
        EpsilonGreedyBandit { arm_count, past_rewards, eps_num, eps_den }
    }

    /// Append one observed reward to the chosen action's history; the only
    /// mutating operation.
    pub fn receive_reward(&mut self, reward: i64, action: usize)
        requires
            old(self).wf(),
            action < old(self).arm_count,
            -MAX_REWARD <= reward <= MAX_REWARD,
            old(self).hist()[action as int].len() < MAX_HISTORY,
        ensures
            final(self).wf(),
            final(self).arm_count == old(self).arm_count,
            final(self).eps_num == old(self).eps_num,
            final(self).eps_den == old(self).eps_den,
            final(self).hist() =~= old(self).hist().update(
                action as int,
                old(self).hist()[action as int].push(reward),
            ),
    {
        self.past_rewards[action].push(reward);
        proof {
            let oh = old(self).hist();
            assert(self.hist() =~= oh.update(action as int, oh[action as int].push(reward)));
            assert forall|a: int, k: int|
                0 <= a < self.arm_count && 0 <= k < self.hist()[a].len() implies -MAX_REWARD
                <= #[trigger] self.hist()[a][k] <= MAX_REWARD by {
                if a == action as int {
                    if k < oh[a].len() {
                        assert(self.hist()[a][k] == oh[a][k]);
                    } else {
                        assert(self.hist()[a][k] == reward);
                    }
                } else {
                    assert(self.hist()[a] == oh[a]);
                }
            }
        }
    }

    /// The exact value estimate for one action: the sum and count of its
    /// recorded rewards, denoting the arithmetic mean `sum / count`, or
    /// exactly 0 when the history is empty.
    pub fn calculate_estimate(&self, action: usize) -> (e: Estimate)
        requires
            self.wf(),
            action < self.arm_count,
        ensures
            e.count == self.hist()[action as int].len(),
            e.sum == sum_of(self.hist()[action as int]),
            e.bounded(),
            e.count == 0 ==> e.sum == 0,
    {
        let h: &Vec<i64> = &self.past_rewards[action];
        proof {
            assert(h@ =~= self.hist()[action as int]);
            assert forall|k: int| 0 <= k < h@.len() implies -MAX_REWARD <= #[trigger] h@[k]
                <= MAX_REWARD by {
                assert(h@[k] == self.hist()[action as int][k]);
            }
        }
        let n = h.len();
        let mut sum: i64 = 0;
        let mut i: usize = 0;
        while i < n
            invariant
                i <= n,
                n == h@.len(),
                n <= MAX_HISTORY,
                forall|k: int| 0 <= k < n ==> -MAX_REWARD <= #[trigger] h@[k] <= MAX_REWARD,
                sum == sum_of(h@.take(i as int)),
                -(i * MAX_REWARD) <= sum <= i * MAX_REWARD,
            decreases n - i,
        {
            proof {
                assert(h@.take(i + 1).drop_last() =~= h@.take(i as int));
                assert(h@.take(i + 1).last() == h@[i as int]);
            }
            sum = sum + h[i];
            i += 1;
        }
        proof {
            assert(h@.take(n as int) =~= h@);
        }
        Estimate { sum, count: n }
    }
}

/// A product of a bounded sum and a bounded denominator stays far inside
/// the `i128` range.
proof fn lemma_prod_in_range(a: int, d: int)
    by (nonlinear_arith)
    requires
        -MAX_SUM <= a <= MAX_SUM,
        1 <= d <= MAX_HISTORY,
    ensures
        -(MAX_SUM * MAX_HISTORY) <= a * d <= MAX_SUM * MAX_HISTORY,
{
}

/// The estimate of `h1` is strictly below the estimate of `h2`.
pub open spec fn est_lt(h1: Seq<i64>, h2: Seq<i64>) -> bool {
    est_num(h1) * est_den(h2) < est_num(h2) * est_den(h1)
}

/// The actions among the first `k` whose estimate attains the maximum,
/// in increasing order.
pub open spec fn greedy_indices(b: EpsilonGreedyBandit, k: nat) -> Seq<usize>
    decreases k,
{
    if k == 0 {
        Seq::empty()
    } else {
        let rest = greedy_indices(b, (k - 1) as nat);
        if b.is_greedy(k - 1) {
            rest.push((k - 1) as usize)
        } else {
            rest
        }
    }
}

/// The actions among the first `k` whose estimate is strictly below the
/// maximum, in increasing order.
pub open spec fn non_greedy_indices(b: EpsilonGreedyBandit, k: nat) -> Seq<usize>
    decreases k,
{
    if k == 0 {
        Seq::empty()
    } else {
        let rest = non_greedy_indices(b, (k - 1) as nat);
        if !b.is_greedy(k - 1) {
            rest.push((k - 1) as usize)
        } else {
            rest
        }
    }
}

/// The two index sequences split the first `k` actions exactly: together
/// they have length `k`, each holds only actions below `k` of its own
/// kind, and every action below `k` appears in the matching sequence.
pub proof fn lemma_partition_props(b: EpsilonGreedyBandit, k: nat)
    requires
        k <= b.arm_count,
    ensures
        greedy_indices(b, k).len() + non_greedy_indices(b, k).len() == k,
        forall|t: int|
            0 <= t < greedy_indices(b, k).len() ==> (#[trigger] greedy_indices(b, k)[t]) < k
                && b.is_greedy(greedy_indices(b, k)[t] as int),
        forall|t: int|
            0 <= t < non_greedy_indices(b, k).len() ==> (#[trigger] non_greedy_indices(b, k)[t])
                < k && !b.is_greedy(non_greedy_indices(b, k)[t] as int),
        forall|a: int|
            0 <= a < k && b.is_greedy(a) ==> greedy_indices(b, k).contains(a as usize),
        forall|a: int|
            0 <= a < k && !b.is_greedy(a) ==> non_greedy_indices(b, k).contains(a as usize),
    decreases k,
{
    if k > 0 {
        lemma_partition_props(b, (k - 1) as nat);
        let g0 = greedy_indices(b, (k - 1) as nat);
        let n0 = non_greedy_indices(b, (k - 1) as nat);
        let g1 = greedy_indices(b, k);
        let n1 = non_greedy_indices(b, k);
        assert forall|a: int|
            0 <= a < k && b.is_greedy(a) implies g1.contains(a as usize) by {
            if a < k - 1 {
                let t = choose|t: int| 0 <= t < g0.len() && g0[t] == a as usize;
                assert(g1[t] == a as usize);
            } else {
                assert(g1[g1.len() - 1] == a as usize);
            }
        }
        assert forall|a: int|
            0 <= a < k && !b.is_greedy(a) implies n1.contains(a as usize) by {
            if a < k - 1 {
                let t = choose|t: int| 0 <= t < n0.len() && n0[t] == a as usize;
                assert(n1[t] == a as usize);
            } else {
                assert(n1[n1.len() - 1] == a as usize);
            }
        }
    }
}

impl EpsilonGreedyBandit {
    /// Split the actions into those attaining the maximum estimate and
    /// the rest, by an exact two-pass comparison: one pass finds a
    /// maximal action, one pass classifies every action against it.
    /// The greedy side is never empty.
    pub fn greedy_partition(&self) -> (r: (Vec<usize>, Vec<usize>))
        requires
            self.wf(),
        ensures
            r.0@ == greedy_indices(*self, self.arm_count as nat),
            r.1@ == non_greedy_indices(*self, self.arm_count as nat),
            r.0@.len() > 0,
            r.0@.len() + r.1@.len() == self.arm_count,
    {
        let n = self.arm_count;
        let mut est: Vec<Estimate> = Vec::new();
        let mut i: usize = 0;
        while i < n
            invariant
                self.wf(),
                n == self.arm_count,
                i <= n,
                est@.len() == i,
                forall|a: int|
                    0 <= a < i ==> (#[trigger] est@[a]).count == self.hist()[a].len()
                        && est@[a].sum == sum_of(self.hist()[a]) && est@[a].bounded(),
            decreases n - i,
        {
            est.push(self.calculate_estimate(i));
            i += 1;
        }

        let mut m: usize = 0;
        let mut i: usize = 1;
        while i < n
            invariant
                self.wf(),
                n == self.arm_count,
                est@.len() == n,
                forall|a: int|
                    0 <= a < n ==> (#[trigger] est@[a]).count == self.hist()[a].len()
                        && est@[a].sum == sum_of(self.hist()[a]) && est@[a].bounded(),
                1 <= i <= n,
                m < i,
                forall|j: int|
                    0 <= j < i ==> est_le(#[trigger] self.hist()[j], self.hist()[m as int]),
            decreases n - i,
        {
            if est[m].ratio_lt(est[i]) {
                proof {
                    let hi = self.hist()[i as int];
                    let hm = self.hist()[m as int];
                    assert forall|j: int|
                        0 <= j < i + 1 implies est_le(#[trigger] self.hist()[j], hi) by {
                        if j < i {
                            let hj = self.hist()[j];
                            lemma_ratio_le_trans(
                                est_num(hj),
                                est_den(hj),
                                est_num(hm),
                                est_den(hm),
                                est_num(hi),
                                est_den(hi),
                            );
                        }
                    }
                }
                m = i;
            } else {
                proof {
                    assert(est_le(self.hist()[i as int], self.hist()[m as int]));
                }
            }
            i += 1;
        }
        proof {
            assert(self.is_greedy(m as int));
        }

        let mut greedy: Vec<usize> = Vec::new();
        let mut non_greedy: Vec<usize> = Vec::new();
        let mut i: usize = 0;
        while i < n
            invariant
                self.wf(),
                n == self.arm_count,
                est@.len() == n,
                forall|a: int|
                    0 <= a < n ==> (#[trigger] est@[a]).count == self.hist()[a].len()
                        && est@[a].sum == sum_of(self.hist()[a]) && est@[a].bounded(),
                m < n,
                self.is_greedy(m as int),
                i <= n,
                greedy@ == greedy_indices(*self, i as nat),
                non_greedy@ == non_greedy_indices(*self, i as nat),
            decreases n - i,
        {
            let hi = Ghost(self.hist()[i as int]);
            let hm = Ghost(self.hist()[m as int]);
            if est[i].ratio_eq(est[m]) {
                proof {
                    assert forall|j: int|
                        0 <= j < n implies est_le(#[trigger] self.hist()[j], hi@) by {
                        let hj = self.hist()[j];
                        lemma_ratio_le_trans(
                            est_num(hj),
                            est_den(hj),
                            est_num(hm@),
                            est_den(hm@),
                            est_num(hi@),
                            est_den(hi@),
                        );
                    }
                    assert(self.is_greedy(i as int));
                }
                greedy.push(i);
            } else {
                proof {
                    // were action i greedy too, both cross-products would
                    // dominate each other and the estimates would be equal
                    assert(est_le(hi@, hm@));
                    assert(!self.is_greedy(i as int)) by {
                        if self.is_greedy(i as int) {
                            assert(est_le(hm@, hi@));
                        }
                    }
                }
                non_greedy.push(i);
            }
            i += 1;
        }
        proof {
            lemma_partition_props(*self, n as nat);
            assert(greedy@.contains(m));
        }
        (greedy, non_greedy)
    }
}

impl EpsilonGreedyBandit {
    /// Epsilon-greedy selection with the two random draws passed in:
    /// `x` plays the role of the uniform sample tested against epsilon
    /// (explore when `x < eps_num`, taking `x` as a draw from
    /// `[0, eps_den)`), and `pick` selects, by its remainder, one entry
    /// of whichever index sequence the test chose.  Exploration falls
    /// back to the greedy side only when every action is tied for the
    /// maximum.
    pub fn choose_action_with(&self, x: u64, pick: u64) -> (a: usize)
        requires
            self.wf(),
        ensures
            a < self.arm_count,
            ({
                let g = greedy_indices(*self, self.arm_count as nat);
                let ng = non_greedy_indices(*self, self.arm_count as nat);
                if x >= self.eps_num {
                    a == g[pick as int % g.len() as int]
                } else if ng.len() > 0 {
                    a == ng[pick as int % ng.len() as int]
                } else {
                    a == g[pick as int % g.len() as int]
                }
            }),
            x >= self.eps_num || non_greedy_indices(*self, self.arm_count as nat).len() == 0
                ==> self.is_greedy(a as int),
            x < self.eps_num && non_greedy_indices(*self, self.arm_count as nat).len() > 0
                ==> !self.is_greedy(a as int),
    {
        proof {
            lemma_partition_props(*self, self.arm_count as nat);
        }
        let (g, ng) = self.greedy_partition();
        if x >= self.eps_num {
            let k = (pick % (g.len() as u64)) as usize;
            g[k]
        } else if ng.len() > 0 {
            let k = (pick % (ng.len() as u64)) as usize;
            ng[k]
        } else {
            let k = (pick % (g.len() as u64)) as usize;
            g[k]
        }
    }

    /// Epsilon-greedy selection with fresh random draws: uniform over the
    /// greedy actions with probability `1 - eps_num / eps_den`, uniform
    /// over the strictly non-maximal actions otherwise, falling back to
    /// the greedy side when no action is strictly non-maximal.
    pub fn choose_action(&self) -> (a: usize)
        requires
            self.wf(),
        ensures
            a < self.arm_count,
            self.arm_count == 1 ==> a == 0,
            self.eps_num == 0 ==> self.is_greedy(a as int),
            self.eps_num >= self.eps_den && non_greedy_indices(
                *self,
                self.arm_count as nat,
            ).len() > 0 ==> !self.is_greedy(a as int),
            non_greedy_indices(*self, self.arm_count as nat).len() == 0 ==> self.is_greedy(
                a as int,
            ),
    {
        proof {
            lemma_partition_props(*self, self.arm_count as nat);
        }
        let (g, ng) = self.greedy_partition();
        let x = crate::sampling::rand_below(self.eps_den);
        if x >= self.eps_num {
            let k = crate::sampling::rand_below(g.len() as u64) as usize;
            g[k]
        } else if ng.len() > 0 {
            let k = crate::sampling::rand_below(ng.len() as u64) as usize;
            ng[k]
        } else {
            let k = crate::sampling::rand_below(g.len() as u64) as usize;
            g[k]
        }
    }
}

/// When one action's estimate strictly exceeds every other action's,
/// it is the only greedy action: a greedy selection (in particular any
/// selection under epsilon 0) must return it.
pub proof fn lemma_unique_max(b: EpsilonGreedyBandit, u: int)
    requires
        b.wf(),
        0 <= u < b.arm_count,
        forall|j: int|
            0 <= j < b.arm_count && j != u ==> est_lt(#[trigger] b.hist()[j], b.hist()[u]),
    ensures
        forall|a: int| b.is_greedy(a) <==> a == u,
{
    assert forall|a: int| b.is_greedy(a) <==> a == u by {
        if a == u {
            assert forall|j: int|
                0 <= j < b.arm_count implies est_le(#[trigger] b.hist()[j], b.hist()[u]) by {}
        }
        if b.is_greedy(a) && a != u {
            assert(est_le(b.hist()[u], b.hist()[a]));
            assert(est_lt(b.hist()[a], b.hist()[u]));
            assert(false);
        }
    }
}

/// When two actions have distinct estimates, some action is strictly
/// non-maximal, so the exploration side of the partition is non-empty:
/// under epsilon at or above 1 a selection never returns a greedy
/// action, in particular never the unique maximal one.
pub proof fn lemma_distinct_estimates_explore(b: EpsilonGreedyBandit, j: int, u: int)
    requires
        b.wf(),
        0 <= j < b.arm_count,
        0 <= u < b.arm_count,
        est_lt(b.hist()[j], b.hist()[u]),
    ensures
        !b.is_greedy(j),
        non_greedy_indices(b, b.arm_count as nat).len() > 0,
{
    assert(!b.is_greedy(j)) by {
        if b.is_greedy(j) {
            assert(est_le(b.hist()[u], b.hist()[j]));
        }
    }
    lemma_partition_props(b, b.arm_count as nat);
    assert(non_greedy_indices(b, b.arm_count as nat).contains(j as usize));
}

/// On a fresh bandit every history is empty, every estimate is exactly
/// 0, and so every action is tied for the maximum: the greedy side is
/// the whole action set and the non-greedy side is empty, whatever
/// epsilon is.
pub proof fn lemma_fresh_all_greedy(b: EpsilonGreedyBandit)
    requires
        b.wf(),
        forall|a: int| 0 <= a < b.arm_count ==> #[trigger] b.hist()[a].len() == 0,
    ensures
        forall|a: int| 0 <= a < b.arm_count ==> b.is_greedy(a),
        greedy_indices(b, b.arm_count as nat).len() == b.arm_count,
        non_greedy_indices(b, b.arm_count as nat).len() == 0,
{
    assert forall|a: int| 0 <= a < b.arm_count implies b.is_greedy(a) by {
        assert forall|j: int|
            0 <= j < b.arm_count implies est_le(#[trigger] b.hist()[j], b.hist()[a]) by {
            assert(sum_of(b.hist()[j]) == 0);
            assert(sum_of(b.hist()[a]) == 0);
        }
    }
    lemma_partition_props(b, b.arm_count as nat);
    let ng = non_greedy_indices(b, b.arm_count as nat);
    if ng.len() > 0 {
        assert(!b.is_greedy(ng[0] as int));
        assert(false);
    }
}

/// Transitivity of the cross-multiplied rational order.
proof fn lemma_ratio_le_trans(n1: int, d1: int, n2: int, d2: int, n3: int, d3: int)
    by (nonlinear_arith)
    requires
        0 < d1,
        0 < d2,
        0 < d3,
        n1 * d2 <= n2 * d1,
        n2 * d3 <= n3 * d2,
    ensures
        n1 * d3 <= n3 * d1,
{
}

} // verus!
