use bandit_sim::bandit::EpsilonGreedyBandit;
use bandit_sim::bandit::Estimate;

#[test]
fn estimate_empty_history_is_zero() {
    let b = EpsilonGreedyBandit::new(3, 1, 10);
    for a in 0..3 {
        let e = b.calculate_estimate(a);
        assert_eq!(e, Estimate { sum: 0, count: 0 });
    }
}

#[test]
fn estimate_is_arithmetic_mean() {
    let mut b = EpsilonGreedyBandit::new(2, 1, 10);
    b.receive_reward(1, 0);
    b.receive_reward(3, 0);
    let e = b.calculate_estimate(0);
    assert_eq!(e, Estimate { sum: 4, count: 2 });
    // the exact rational 4/2 is the mean 2
    assert!(e.ratio_eq(Estimate { sum: 2, count: 1 }));
}

#[test]
fn estimate_mean_of_negative_rewards() {
    let mut b = EpsilonGreedyBandit::new(1, 0, 1);
    b.receive_reward(-3, 0);
    b.receive_reward(-1, 0);
    let e = b.calculate_estimate(0);
    assert_eq!(e, Estimate { sum: -4, count: 2 });
    assert!(e.ratio_eq(Estimate { sum: -2, count: 1 }));
}

#[test]
fn ratio_comparisons_are_exact() {
    // 1/3 < 2/5, 2/4 == 1/2, empty (0/1) < 1/2
    assert!(Estimate { sum: 1, count: 3 }.ratio_lt(Estimate { sum: 2, count: 5 }));
    assert!(Estimate { sum: 2, count: 4 }.ratio_eq(Estimate { sum: 1, count: 2 }));
    assert!(Estimate { sum: 0, count: 0 }.ratio_lt(Estimate { sum: 1, count: 2 }));
    assert!(!Estimate { sum: 1, count: 2 }.ratio_le(Estimate { sum: 0, count: 0 }));
}

#[test]
fn choose_action_in_range() {
    let mut b = EpsilonGreedyBandit::new(5, 1, 3);
    b.receive_reward(7, 2);
    b.receive_reward(-2, 4);
    for _ in 0..500 {
        let a = b.choose_action();
        assert!(a < 5);
    }
}

#[test]
fn choose_action_single_arm_returns_zero() {
    let b = EpsilonGreedyBandit::new(1, 1, 2);
    for _ in 0..200 {
        assert_eq!(b.choose_action(), 0);
    }
}

#[test]
fn greedy_when_epsilon_zero() {
    // arm 1 has the strictly highest estimate; with epsilon == 0 the
    // bandit must always return it
    let mut b = EpsilonGreedyBandit::new(3, 0, 1);
    b.receive_reward(10, 1);
    b.receive_reward(1, 0);
    b.receive_reward(2, 2);
    for _ in 0..1000 {
        assert_eq!(b.choose_action(), 1);
    }
}

#[test]
fn always_explores_when_epsilon_one() {
    // arm 0 has the unique maximal estimate; with epsilon == 1 the
    // bandit must never return it
    let mut b = EpsilonGreedyBandit::new(3, 1, 1);
    b.receive_reward(10, 0);
    b.receive_reward(2, 1);
    b.receive_reward(-5, 2);
    for _ in 0..1000 {
        let a = b.choose_action();
        assert_ne!(a, 0);
        assert!(a < 3);
    }
}

#[test]
fn epsilon_above_one_behaves_like_always_explore() {
    // epsilon is accepted as given; 3/2 is a degenerate always-explore mode
    let mut b = EpsilonGreedyBandit::new(2, 3, 2);
    b.receive_reward(9, 1);
    for _ in 0..500 {
        assert_eq!(b.choose_action(), 0);
    }
}

#[test]
fn all_tied_falls_back_to_all_actions() {
    // fresh bandit: every action is tied for the maximum, so under any
    // epsilon the choice ranges over the whole action set, roughly
    // uniformly
    let b = EpsilonGreedyBandit::new(4, 1, 1);
    let mut seen = [0usize; 4];
    for _ in 0..4000 {
        let a = b.choose_action();
        assert!(a < 4);
        seen[a] += 1;
    }
    for count in seen {
        // each action should get close to a quarter of the draws
        assert!(count > 700, "distribution far from uniform: {seen:?}");
    }
}

#[test]
fn greedy_partition_splits_actions() {
    let mut b = EpsilonGreedyBandit::new(4, 1, 2);
    // arms 1 and 3 tie for the maximum mean 3; arms 0 and 2 are below
    b.receive_reward(3, 1);
    b.receive_reward(6, 3);
    b.receive_reward(0, 3);
    b.receive_reward(1, 0);
    b.receive_reward(-4, 2);
    let (greedy, non_greedy) = b.greedy_partition();
    assert_eq!(greedy, vec![1, 3]);
    assert_eq!(non_greedy, vec![0, 2]);
}

#[test]
fn choose_action_with_follows_the_draws() {
    let mut b = EpsilonGreedyBandit::new(2, 1, 2);
    // fresh: both greedy, pick selects by remainder
    assert_eq!(b.choose_action_with(1, 0), 0);
    assert_eq!(b.choose_action_with(1, 1), 1);
    b.receive_reward(5, 1);
    // arm 1 is now uniquely greedy, arm 0 uniquely non-greedy
    // x = 1 >= eps_num = 1: greedy branch
    assert_eq!(b.choose_action_with(1, 7), 1);
    // x = 0 < eps_num = 1: explore branch
    assert_eq!(b.choose_action_with(0, 7), 0);
}
