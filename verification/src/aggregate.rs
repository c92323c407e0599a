//! Cross-task aggregation: element-wise sums of reward sequences and the
//! final per-play mean, plus the laws that make the reduction safe to
//! reorder.

use vstd::prelude::*;

verus! {

/// Truncating signed division by a positive count: the mean rounds
/// toward zero, symmetrically for gains and losses.
pub open spec fn mean_div(s: int, t: int) -> int {
    if s >= 0 {
        s / t
    } else {
        -((-s) / t)
    }
}

/// The per-play total over a collection of reward sequences: the sum of
/// every sequence's entry at play `i`.
pub open spec fn total_at(tasks: Seq<Seq<i64>>, i: int) -> int
    decreases tasks.len(),
{
    if tasks.len() == 0 {
        0
    } else {
        total_at(tasks.drop_last(), i) + tasks.last()[i]
    }
}

/// A fresh accumulator: one zero per play.
pub fn zero_rewards(num_plays: usize) -> (r: Vec<i64>)
    ensures
        r@.len() == num_plays,
        forall|i: int| 0 <= i < num_plays ==> #[trigger] r@[i] == 0,
{
    let mut r: Vec<i64> = Vec::new();
    let mut i: usize = 0;
    while i < num_plays
        invariant
            i <= num_plays,
            r@.len() == i,
            forall|k: int| 0 <= k < i ==> #[trigger] r@[k] == 0,
        decreases num_plays - i,
    {
        r.push(0);
        i += 1;
    }
    r
}

/// Add one task's reward sequence into the per-play accumulator,
/// element by element.
pub fn accumulate(acc: &mut Vec<i64>, rewards: &Vec<i64>)
    requires
        old(acc)@.len() == rewards@.len(),
        forall|i: int|
            0 <= i < rewards@.len() ==> i64::MIN <= #[trigger] old(acc)@[i] + rewards@[i]
                <= i64::MAX,
    ensures
        final(acc)@.len() == old(acc)@.len(),
        forall|i: int|
            0 <= i < rewards@.len() ==> #[trigger] final(acc)@[i] == old(acc)@[i] + rewards@[i],
{
    let n = rewards.len();
    let mut i: usize = 0;
    while i < n
        invariant
            i <= n,
            n == rewards@.len(),
            acc@.len() == n,
            forall|k: int|
                i <= k < n ==> i64::MIN <= #[trigger] acc@[k] + rewards@[k] <= i64::MAX,
            forall|k: int| i <= k < n ==> #[trigger] acc@[k] == old(acc)@[k],
            forall|k: int| 0 <= k < i ==> #[trigger] acc@[k] == old(acc)@[k] + rewards@[k],
        decreases n - i,
    {
        let v = acc[i] + rewards[i];
        acc[i] = v;
        i += 1;
    }
}

/// The per-play mean over `num_tasks` tasks: each per-play sum divided
/// by the task count, rounding toward zero.
pub fn average(sums: &Vec<i64>, num_tasks: usize) -> (r: Vec<i64>)
    requires
        0 < num_tasks,
        forall|i: int| 0 <= i < sums@.len() ==> i64::MIN < #[trigger] sums@[i],
    ensures
        r@.len() == sums@.len(),
        forall|i: int|
            0 <= i < sums@.len() ==> #[trigger] r@[i] == mean_div(sums@[i] as int, num_tasks as int),
{
    let n = sums.len();
    let nt = num_tasks as u64;
    let mut r: Vec<i64> = Vec::new();
    let mut i: usize = 0;
    while i < n
        invariant
            i <= n,
            n == sums@.len(),
            r@.len() == i,
            0 < num_tasks,
            nt == num_tasks as u64,
            forall|k: int| 0 <= k < n ==> i64::MIN < #[trigger] sums@[k],
            forall|k: int|
                0 <= k < i ==> #[trigger] r@[k] == mean_div(sums@[k] as int, num_tasks as int),
        decreases n - i,
    {
        let s = sums[i];
        let q: i64 = if s >= 0 {
            ((s as u64) / nt) as i64
        } else {
            -((((-s) as u64) / nt) as i64)
        };
        r.push(q);
        i += 1;
    }
    r
}

/// Averaging one task's reward sequence with itself reproduces the
/// sequence exactly: adding a sequence to itself and halving every entry
/// of the sum gives the entries back, so the mean reduction is
/// idempotent under one sample.
pub proof fn lemma_mean_idempotent(s: Seq<i64>)
    ensures
        forall|i: int| 0 <= i < s.len() ==> mean_div(s[i] + s[i], 2) == s[i],
{
    assert forall|i: int| 0 <= i < s.len() implies mean_div(s[i] + s[i], 2) == s[i] by {
        let x = s[i] as int;
        if x >= 0 {
            assert((x + x) / 2 == x);
        } else {
            assert((-(x + x)) / 2 == -x);
        }
    }
}

/// Folding one more task into the running per-play sums, as one
/// `accumulate` call does element-wise, advances every per-play total by
/// exactly the new sequence's entry.
pub proof fn lemma_total_push(tasks: Seq<Seq<i64>>, r: Seq<i64>, i: int)
    ensures
        total_at(tasks.push(r), i) == total_at(tasks, i) + r[i],
{
    assert(tasks.push(r).drop_last() =~= tasks);
    assert(tasks.push(r).last() == r);
}

/// Removing one sequence from the collection removes exactly its entry
/// from every per-play total.
proof fn lemma_total_remove(tasks: Seq<Seq<i64>>, p: int, i: int)
    requires
        0 <= p < tasks.len(),
    ensures
        total_at(tasks.remove(p), i) == total_at(tasks, i) - tasks[p][i],
    decreases tasks.len(),
{
    if p == tasks.len() - 1 {
        assert(tasks.remove(p) =~= tasks.drop_last());
    } else {
        lemma_total_remove(tasks.drop_last(), p, i);
        assert(tasks.remove(p).drop_last() =~= tasks.drop_last().remove(p));
        assert(tasks.remove(p).last() == tasks.last());
    }
}

/// Order-independence of the reduction: two collections holding the same
/// reward sequences (in any order, with multiplicity) have the same
/// per-play totals, so summing per-play partial results from multiple
/// tasks in any permutation yields the same aggregate.
pub proof fn lemma_total_permutation(s1: Seq<Seq<i64>>, s2: Seq<Seq<i64>>, i: int)
    requires
        s1.to_multiset() == s2.to_multiset(),
    ensures
        total_at(s1, i) == total_at(s2, i),
    decreases s1.len(),
{
    s1.to_multiset_ensures();
    s2.to_multiset_ensures();
    if s1.len() == 0 {
        assert(s2.to_multiset().len() == 0);
    } else {
        let x = s1.last();
        assert(s1.contains(x));
        assert(s1.to_multiset().count(x) > 0);
        assert(s2.contains(x));
        let p = choose|p: int| 0 <= p < s2.len() && s2[p] == x;
        assert(s1.remove(s1.len() - 1).to_multiset() =~= s1.to_multiset().remove(x));
        assert(s2.remove(p).to_multiset() =~= s2.to_multiset().remove(x));
        assert(s1.remove(s1.len() - 1) =~= s1.drop_last());
        lemma_total_permutation(s1.drop_last(), s2.remove(p), i);
        lemma_total_remove(s2, p, i);
    }
}

} // verus!
