use circuit_sim::dmp::WeightError;
use circuit_sim::fixed::{Fixed, SCALE};
use circuit_sim::optimizer::{
    elite_mean, select_elites, Episode, Optimizer, ELITE_COUNT, SAMPLES_PER_ROUND,
};

fn episode(weights: Vec<Fixed>, reward: Fixed) -> Episode {
    Episode { weights, reward }
}

fn episodes_with_rewards(rewards: &[Fixed]) -> Vec<Episode> {
    rewards.iter().map(|r| episode(Vec::new(), *r)).collect()
}

#[test]
fn elites_are_the_best_rewards_best_first() {
    let episodes = episodes_with_rewards(&[3, 9, 1, 8, 5, 7, 2]);
    assert_eq!(select_elites(&episodes, 5), vec![1, 3, 5, 4, 0]);
}

#[test]
fn equal_rewards_rank_in_the_order_they_came() {
    let episodes = episodes_with_rewards(&[3, 9, 1, 9, 5, 9, 2]);
    assert_eq!(select_elites(&episodes, 2), vec![1, 3]);
    assert_eq!(select_elites(&episodes, 4), vec![1, 3, 5, 4]);
    let same = episodes_with_rewards(&[4, 4, 4, 4, 4, 4, 4]);
    assert_eq!(select_elites(&same, 5), vec![0, 1, 2, 3, 4]);
}

#[test]
fn fewer_episodes_than_elites_are_all_picked() {
    let episodes = episodes_with_rewards(&[1, 3, 2]);
    assert_eq!(select_elites(&episodes, 5), vec![1, 2, 0]);
    assert_eq!(select_elites(&Vec::new(), 5), Vec::<usize>::new());
    assert_eq!(select_elites(&episodes, 0), Vec::<usize>::new());
}

#[test]
fn negative_rewards_rank_below_positive_ones() {
    let episodes = episodes_with_rewards(&[-5, i64::MIN, 0, i64::MAX, -1]);
    assert_eq!(select_elites(&episodes, 5), vec![3, 2, 4, 0, 1]);
}

#[test]
fn mean_is_the_elementwise_average() {
    let episodes = vec![
        episode(vec![10, -10, 1], 1),
        episode(vec![20, -20, 1], 2),
        episode(vec![60, -31, 2], 3),
    ];
    assert_eq!(elite_mean(&episodes, &vec![0, 1, 2], 3), vec![30, -20, 1]);
    assert_eq!(elite_mean(&episodes, &vec![2, 0], 3), vec![35, -20, 1]);
    assert_eq!(elite_mean(&episodes, &vec![1], 3), vec![20, -20, 1]);
}

#[test]
fn mean_of_the_largest_weights_does_not_overflow() {
    let episodes = vec![
        episode(vec![i64::MAX, i64::MIN], 1),
        episode(vec![i64::MAX, i64::MIN], 2),
        episode(vec![i64::MAX, i64::MIN], 3),
    ];
    assert_eq!(elite_mean(&episodes, &vec![0, 1, 2], 2), vec![i64::MAX, i64::MIN]);
}

#[test]
fn new_optimizer_starts_at_zero() {
    let optimizer = Optimizer::new(40, SAMPLES_PER_ROUND, ELITE_COUNT, 10);
    assert_eq!(optimizer.get_mean(), &vec![0; 40]);
    assert_eq!(optimizer.recorded_count(), 0);
    assert!(!optimizer.round_complete());
    assert!(!optimizer.is_finished());
}

#[test]
fn round_of_fifteen_keeps_five_elites() {
    let mut optimizer = Optimizer::new(2, SAMPLES_PER_ROUND, ELITE_COUNT, 10);
    for i in 0..15 {
        assert!(!optimizer.round_complete());
        let i = i as i64;
        assert_eq!(optimizer.record(vec![i * SCALE, -i * SCALE], (i % 7) * SCALE), Ok(()));
    }
    assert!(optimizer.round_complete());
    assert_eq!(optimizer.recorded_count(), 15);
    let elites = optimizer.finish_round();
    assert_eq!(elites, vec![6, 13, 5, 12, 4]);
    assert_eq!(optimizer.get_mean(), &vec![8 * SCALE, -8 * SCALE]);
    assert_eq!(optimizer.recorded_count(), 0);
}

#[test]
fn mean_lives_on_into_the_next_round() {
    let mut optimizer = Optimizer::new(1, 3, 2, 2);
    assert_eq!(optimizer.record(vec![10], 5), Ok(()));
    assert_eq!(optimizer.record(vec![20], 6), Ok(()));
    assert_eq!(optimizer.record(vec![90], 1), Ok(()));
    assert_eq!(optimizer.finish_round(), vec![1, 0]);
    assert_eq!(optimizer.get_mean(), &vec![15]);
    assert!(!optimizer.is_finished());
    assert_eq!(optimizer.record(vec![7], 1), Ok(()));
    assert_eq!(optimizer.get_mean(), &vec![15]);
    assert_eq!(optimizer.finish_round(), vec![0]);
    assert_eq!(optimizer.get_mean(), &vec![7]);
    assert!(optimizer.is_finished());
}

#[test]
fn round_without_episodes_keeps_the_mean() {
    let mut optimizer = Optimizer::new(1, 3, 2, 5);
    assert_eq!(optimizer.record(vec![10], 5), Ok(()));
    assert_eq!(optimizer.finish_round(), vec![0]);
    assert_eq!(optimizer.finish_round(), Vec::<usize>::new());
    assert_eq!(optimizer.get_mean(), &vec![10]);
}

#[test]
fn weights_of_the_wrong_length_are_not_recorded() {
    let mut optimizer = Optimizer::new(2, 3, 2, 5);
    assert_eq!(
        optimizer.record(vec![1, 2, 3], 5),
        Err(WeightError::LengthMismatch { expected: 2, given: 3 })
    );
    assert_eq!(optimizer.recorded_count(), 0);
    assert_eq!(optimizer.record(vec![1, 2], 5), Ok(()));
    assert_eq!(optimizer.recorded_count(), 1);
}
