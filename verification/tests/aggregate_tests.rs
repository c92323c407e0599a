use bandit_sim::aggregate::accumulate;
use bandit_sim::aggregate::average;
use bandit_sim::aggregate::zero_rewards;

#[test]
fn zero_rewards_is_all_zeros() {
    let z = zero_rewards(5);
    assert_eq!(z, vec![0, 0, 0, 0, 0]);
}

#[test]
fn accumulate_adds_elementwise() {
    let mut acc = zero_rewards(3);
    accumulate(&mut acc, &vec![1, -2, 3]);
    accumulate(&mut acc, &vec![10, 20, -30]);
    assert_eq!(acc, vec![11, 18, -27]);
}

#[test]
fn average_divides_by_task_count() {
    let means = average(&vec![10, -10, 7, -7, 0], 2);
    // truncation toward zero, symmetric for gains and losses
    assert_eq!(means, vec![5, -5, 3, -3, 0]);
}

#[test]
fn averaging_a_sequence_with_itself_reproduces_it() {
    // the mean reduction is idempotent under one sample: run the same
    // rewards twice, sum, divide by two
    let rewards: Vec<i64> = vec![4, -9, 0, 123456, -77];
    let mut sums = zero_rewards(rewards.len());
    accumulate(&mut sums, &rewards);
    accumulate(&mut sums, &rewards);
    let means = average(&sums, 2);
    assert_eq!(means, rewards);
}

#[test]
fn accumulation_order_does_not_matter() {
    let tasks: Vec<Vec<i64>> = vec![
        vec![1, 2, 3],
        vec![-4, 5, -6],
        vec![7, -8, 9],
        vec![0, 100, -100],
    ];
    let orders: [[usize; 4]; 4] = [[0, 1, 2, 3], [3, 2, 1, 0], [1, 3, 0, 2], [2, 0, 3, 1]];
    let mut results: Vec<Vec<i64>> = Vec::new();
    for order in orders {
        let mut sums = zero_rewards(3);
        for t in order {
            accumulate(&mut sums, &tasks[t]);
        }
        results.push(average(&sums, 4));
    }
    for r in &results {
        assert_eq!(r, &results[0]);
    }
    assert_eq!(results[0], vec![1, 24, -23]);
}
