use bandit_sim::bandit::EpsilonGreedyBandit;
use bandit_sim::task::BanditTask;

#[test]
fn run_task_returns_one_reward_per_play() {
    let task = BanditTask::new(3, vec![0, 1, -1]);
    let mut bandit = EpsilonGreedyBandit::new(3, 1, 5);
    let num_plays = 40;
    let candidates: Vec<Vec<i64>> = (0..num_plays).map(|t| vec![t as i64, -7, 3]).collect();
    let rewards = task.run_task(&mut bandit, num_plays, &candidates);
    assert_eq!(rewards.len(), num_plays);
}

#[test]
fn run_task_delivers_candidates_of_chosen_actions() {
    // every candidate of a play is the same, so whatever actions the
    // bandit picks, the reward sequence is pinned
    let task = BanditTask::new(2, vec![0, 0]);
    let mut bandit = EpsilonGreedyBandit::new(2, 1, 2);
    let candidates: Vec<Vec<i64>> = (0..10).map(|t| vec![t as i64 * 10, t as i64 * 10]).collect();
    let rewards = task.run_task(&mut bandit, 10, &candidates);
    let expected: Vec<i64> = (0..10).map(|t| t * 10).collect();
    assert_eq!(rewards, expected);
    // every candidate was recorded somewhere: histories hold 10 rewards
    let total: usize =
        (0..2usize).map(|a| bandit.calculate_estimate(a).count).sum();
    assert_eq!(total, 10);
}

#[test]
fn run_task_epsilon_zero_keeps_exploiting() {
    // arm 0 starts ahead and all its candidates stay positive while arm 1
    // is never tried, so with epsilon 0 every play exploits arm 0 and the
    // whole trajectory is pinned
    let task = BanditTask::new(2, vec![1, 0]);
    let mut bandit = EpsilonGreedyBandit::new(2, 0, 1);
    bandit.receive_reward(4, 0);
    let candidates: Vec<Vec<i64>> = (0..8).map(|t| vec![t as i64 + 1, -50]).collect();
    let rewards = task.run_task(&mut bandit, 8, &candidates);
    let expected: Vec<i64> = (0..8).map(|t| t + 1).collect();
    assert_eq!(rewards, expected);
    assert_eq!(bandit.calculate_estimate(1).count, 0);
    assert_eq!(bandit.calculate_estimate(0).count, 9);
}

#[test]
fn golden_trace_two_arms_epsilon_zero() {
    // arm count 2, epsilon 0, and a fixed sequence of draws: the exact
    // action and reward sequences are forced
    let mut bandit = EpsilonGreedyBandit::new(2, 0, 1);
    let candidates: Vec<Vec<i64>> = vec![vec![5, -1], vec![2, 10], vec![3, 4]];
    let picks: [u64; 3] = [1, 5, 0];
    let mut actions: Vec<usize> = Vec::new();
    let mut rewards: Vec<i64> = Vec::new();
    for t in 0..3 {
        // epsilon is 0, so any x takes the greedy branch
        let a = bandit.choose_action_with(7, picks[t]);
        let r = candidates[t][a];
        bandit.receive_reward(r, a);
        actions.push(a);
        rewards.push(r);
    }
    // play 0: both arms tied at estimate 0, pick 1 takes arm 1, reward -1
    // play 1: arm 0 empty (0) beats arm 1 (-1), reward 2
    // play 2: arm 0 (mean 2) beats arm 1 (-1), reward 3
    assert_eq!(actions, vec![1, 0, 0]);
    assert_eq!(rewards, vec![-1, 2, 3]);
    let e0 = bandit.calculate_estimate(0);
    let e1 = bandit.calculate_estimate(1);
    assert_eq!((e0.sum, e0.count), (5, 2));
    assert_eq!((e1.sum, e1.count), (-1, 1));
}
