//! One bandit problem instance and the play loop that drives a bandit
//! against it.
//!
//! A task owns the hidden true value of each action.  The per-play reward
//! candidates are drawn around those true values by the caller (one bounded
//! fixed-point candidate per action per play, drawn fresh every play even
//! though only the chosen action's is delivered) and handed to `run_task`
//! as a grid, so the whole play loop is deterministic in them up to the
//! bandit's own action choices.

use crate::bandit::greedy_for;
use crate::bandit::EpsilonGreedyBandit;
use crate::bandit::MAX_HISTORY;
use crate::bandit::MAX_REWARD;
use vstd::prelude::*;

verus! {

/// A two-level vector as a sequence of sequences.
pub open spec fn grid(v: Vec<Vec<i64>>) -> Seq<Seq<i64>> {
    Seq::new(v@.len() as nat, |t: int| v@[t]@)
}

/// One play recorded into the histories: reward `r` appended to action
/// `a`'s history.
pub open spec fn record_play(h: Seq<Seq<i64>>, a: int, r: i64) -> Seq<Seq<i64>> {
    h.update(a, h[a].push(r))
}

/// The histories after playing the actions `acts` in order against the
/// candidate grid `cands`: at play `t`, action `acts[t]` receives
/// candidate `cands[t][acts[t]]`.
pub open spec fn replay(h: Seq<Seq<i64>>, cands: Seq<Seq<i64>>, acts: Seq<usize>) -> Seq<
    Seq<i64>,
>
    decreases acts.len(),
{
    if acts.len() == 0 {
        h
    } else {
        let t = acts.len() - 1;
        record_play(
            replay(h, cands, acts.drop_last()),
            acts[t] as int,
            cands[t][acts[t] as int],
        )
    }
}

/// A play-by-play trace is consistent with the candidate grid: every
/// action is in range and every delivered reward is the chosen action's
/// candidate of that play.
pub open spec fn trace_ok(n: int, cands: Seq<Seq<i64>>, acts: Seq<usize>, rewards: Seq<i64>) -> bool {
    &&& acts.len() == rewards.len()
    &&& forall|t: int| 0 <= t < acts.len() ==> (#[trigger] acts[t]) < n
    &&& forall|t: int| 0 <= t < acts.len() ==> rewards[t] == cands[t][(#[trigger] acts[t]) as int]
}

/// One randomized problem instance: `arm_count` actions, each with a
/// hidden true mean reward in fixed-point units, fixed for the task's
/// lifetime.
pub struct BanditTask {
    /// Number of actions; must match the bandit being driven.
    pub arm_count: usize,
    /// Hidden true mean reward of each action, fixed at construction.
    pub true_values: Vec<i64>,
}

impl BanditTask {
    /// One hidden true value per action, and at least one action.
    pub open spec fn wf(self) -> bool {
        &&& 0 < self.arm_count
        &&& self.true_values@.len() == self.arm_count
    }

    /// A task over `arm_count` actions with the given hidden true values,
    /// one per action.
    pub fn new(arm_count: usize, true_values: Vec<i64>) -> (t: BanditTask)
        requires
            0 < arm_count,
            true_values@.len() == arm_count,
        ensures
            t.wf(),
            t.arm_count == arm_count,
            t.true_values == true_values,
    {
        BanditTask { arm_count, true_values }
    }

    /// Drive `bandit` for `num_plays` plays against the candidate grid:
    /// each play asks the bandit for an action, delivers that action's
    /// candidate of the play, feeds it back, and records it.  Returns the
    /// rewards in play order; the bandit's histories afterwards are
    /// exactly the replay of the chosen actions.
    pub fn run_task(
        &self,
        bandit: &mut EpsilonGreedyBandit,
        num_plays: usize,
        candidates: &Vec<Vec<i64>>,
    ) -> (rewards: Vec<i64>)
        requires
            self.wf(),
            old(bandit).wf(),
            old(bandit).arm_count == self.arm_count,
            candidates@.len() == num_plays,
            forall|t: int| 0 <= t < num_plays ==> (#[trigger] grid(*candidates)[t]).len()
                == self.arm_count,
            forall|t: int, j: int|
                0 <= t < num_plays && 0 <= j < self.arm_count ==> -MAX_REWARD
                    <= #[trigger] grid(*candidates)[t][j] <= MAX_REWARD,
            forall|a: int|
                0 <= a < self.arm_count ==> #[trigger] old(bandit).hist()[a].len() + num_plays
                    <= MAX_HISTORY,
        ensures
            rewards@.len() == num_plays,
            final(bandit).wf(),
            final(bandit).arm_count == old(bandit).arm_count,
            final(bandit).eps_num == old(bandit).eps_num,
            final(bandit).eps_den == old(bandit).eps_den,
            forall|t: int| 0 <= t < num_plays ==> -MAX_REWARD <= #[trigger] rewards@[t]
                <= MAX_REWARD,
            exists|acts: Seq<usize>|
                {
                    &&& trace_ok(self.arm_count as int, grid(*candidates), acts, rewards@)
                    &&& final(bandit).hist() == replay(
                        old(bandit).hist(),
                        grid(*candidates),
                        acts,
                    )
                    &&& old(bandit).eps_num == 0 ==> forall|t: int|
                        0 <= t < acts.len() ==> greedy_for(
                            self.arm_count as int,
                            replay(old(bandit).hist(), grid(*candidates), #[trigger] acts.take(t)),
                            acts[t] as int,
                        )
                },
    {
        let ghost h0 = bandit.hist();
        let ghost c = grid(*candidates);
        let mut rewards: Vec<i64> = Vec::new();
        let ghost mut acts: Seq<usize> = Seq::empty();
        let mut t: usize = 0;
        while t < num_plays
            invariant
                self.wf(),
                bandit.wf(),
                bandit.arm_count == self.arm_count,
                bandit.eps_num == old(bandit).eps_num,
                bandit.eps_den == old(bandit).eps_den,
                c == grid(*candidates),
                candidates@.len() == num_plays,
                forall|s: int| 0 <= s < num_plays ==> (#[trigger] c[s]).len() == self.arm_count,
                forall|s: int, j: int|
                    0 <= s < num_plays && 0 <= j < self.arm_count ==> -MAX_REWARD
                        <= #[trigger] c[s][j] <= MAX_REWARD,
                forall|a: int|
                    0 <= a < self.arm_count ==> #[trigger] h0[a].len() + num_plays <= MAX_HISTORY,
                t <= num_plays,
                rewards@.len() == t,
                acts.len() == t,
                trace_ok(self.arm_count as int, c, acts, rewards@),
                forall|s: int| 0 <= s < t ==> -MAX_REWARD <= #[trigger] rewards@[s] <= MAX_REWARD,
                bandit.hist() == replay(h0, c, acts),
                forall|a: int|
                    0 <= a < self.arm_count ==> #[trigger] bandit.hist()[a].len() <= h0[a].len()
                        + t,
                old(bandit).eps_num == 0 ==> forall|s: int|
                    0 <= s < t ==> greedy_for(
                        self.arm_count as int,
                        replay(h0, c, #[trigger] acts.take(s)),
                        acts[s] as int,
                    ),
            decreases num_plays - t,
        {
            let a = bandit.choose_action();
            proof {
                assert(c[t as int] == candidates@[t as int]@);
            }
            let reward = candidates[t][a];
            proof {
                assert(reward == c[t as int][a as int]);
            }
            let ghost pre = bandit.hist();
            bandit.receive_reward(reward, a);
            rewards.push(reward);
            proof {
                let prev = acts;
                acts = acts.push(a);
                assert(acts.drop_last() =~= prev);
                assert(acts[acts.len() - 1] == a);
                assert(bandit.hist() =~= record_play(pre, a as int, c[t as int][a as int]));
                assert(bandit.hist() =~= replay(h0, c, acts));
                if old(bandit).eps_num == 0 {
                    assert(greedy_for(self.arm_count as int, pre, a as int));
                    assert forall|s: int| 0 <= s < t + 1 implies greedy_for(
                        self.arm_count as int,
                        replay(h0, c, #[trigger] acts.take(s)),
                        acts[s] as int,
                    ) by {
                        if s < t {
                            assert(acts.take(s) =~= prev.take(s));
                            assert(acts[s] == prev[s]);
                        } else {
                            assert(acts.take(s) =~= prev);
                        }
                    }
                }
            }
            t += 1;
        }
        proof {
            assert(trace_ok(self.arm_count as int, grid(*candidates), acts, rewards@));
        }
        rewards
    }
}

} // verus!
