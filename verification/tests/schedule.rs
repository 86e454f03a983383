use plonky2_uniform_circuit_aggregation::check_schedule;
use plonky2_uniform_circuit_aggregation::constant_strategy;
use plonky2_uniform_circuit_aggregation::schedule_capacity;
use plonky2_uniform_circuit_aggregation::AggregationError;

fn product(schedule: &[usize]) -> u128 {
    schedule.iter().map(|a| *a as u128).product()
}

#[test]
fn ten_leaves_by_three_take_three_layers() {
    assert_eq!(constant_strategy(10, 3), Ok(vec![3, 3, 3]));
    assert_eq!(schedule_capacity(&[3, 3, 3]), Some(27));
}

#[test]
fn hundred_leaves_by_ten_take_two_layers() {
    assert_eq!(constant_strategy(100, 10), Ok(vec![10, 10]));
}

#[test]
fn exact_power_needs_no_further_layer() {
    assert_eq!(constant_strategy(9, 3), Ok(vec![3, 3]));
    assert_eq!(constant_strategy(8, 2), Ok(vec![2, 2, 2]));
    assert_eq!(constant_strategy(9, 2), Ok(vec![2, 2, 2, 2]));
}

#[test]
fn single_leaf_still_gets_one_layer() {
    assert_eq!(constant_strategy(1, 3), Ok(vec![3]));
    assert_eq!(constant_strategy(0, 2), Ok(vec![2]));
    assert_eq!(constant_strategy(2, 2), Ok(vec![2]));
    assert_eq!(constant_strategy(3, 2), Ok(vec![2, 2]));
}

#[test]
fn arity_below_two_is_rejected() {
    assert_eq!(constant_strategy(10, 1), Err(AggregationError::ArityTooSmall));
    assert_eq!(constant_strategy(10, 0), Err(AggregationError::ArityTooSmall));
    assert_eq!(constant_strategy(0, 1), Err(AggregationError::ArityTooSmall));
}

#[test]
fn schedule_covers_and_is_minimal() {
    for arity in 2..7usize {
        for n in 1..400usize {
            let schedule = constant_strategy(n, arity).unwrap();
            assert!(!schedule.is_empty());
            assert!(schedule.iter().all(|a| *a == arity));
            assert!(product(&schedule) >= n as u128);
            if n >= 2 {
                assert!(product(&schedule[..schedule.len() - 1]) < n as u128);
            }
        }
    }
}

#[test]
fn schedule_for_the_largest_leaf_count_does_not_overflow() {
    let schedule = constant_strategy(usize::MAX, 2).unwrap();
    assert_eq!(schedule.len(), usize::BITS as usize);
    assert!(schedule.iter().all(|a| *a == 2));
    assert_eq!(schedule_capacity(&schedule), None);
    let big = constant_strategy(usize::MAX, usize::MAX).unwrap();
    assert_eq!(big, vec![usize::MAX]);
}

#[test]
fn capacity_is_the_product() {
    assert_eq!(schedule_capacity(&[]), Some(1));
    assert_eq!(schedule_capacity(&[2, 3, 2]), Some(12));
    assert_eq!(schedule_capacity(&[7]), Some(7));
    assert_eq!(schedule_capacity(&[10, 10, 10]), Some(1000));
}

#[test]
fn capacity_with_a_zero_arity_is_zero() {
    assert_eq!(schedule_capacity(&[usize::MAX, usize::MAX, 0]), Some(0));
    assert_eq!(schedule_capacity(&[0, 5]), Some(0));
}

#[test]
fn capacity_beyond_the_machine_is_none() {
    assert_eq!(schedule_capacity(&[usize::MAX, 2]), None);
    assert_eq!(schedule_capacity(&[usize::MAX, 1]), Some(usize::MAX));
    let sixty_four_twos = vec![2usize; usize::BITS as usize];
    assert_eq!(schedule_capacity(&sixty_four_twos), None);
    assert_eq!(
        schedule_capacity(&sixty_four_twos[1..]),
        Some(1usize << (usize::BITS - 1))
    );
}

#[test]
fn check_schedule_gives_capacity() {
    assert_eq!(check_schedule(10, &[2, 3, 2]), Ok(12));
    assert_eq!(check_schedule(12, &[2, 3, 2]), Ok(12));
    assert_eq!(check_schedule(1, &[]), Ok(1));
}

#[test]
fn check_schedule_names_what_is_wrong() {
    assert_eq!(check_schedule(0, &[2, 3]), Err(AggregationError::NoLeaves));
    assert_eq!(check_schedule(0, &[1]), Err(AggregationError::NoLeaves));
    assert_eq!(check_schedule(3, &[2, 1, 2]), Err(AggregationError::ArityTooSmall));
    assert_eq!(check_schedule(3, &[0]), Err(AggregationError::ArityTooSmall));
    assert_eq!(
        check_schedule(13, &[2, 3, 2]),
        Err(AggregationError::AggregationArityMismatch)
    );
    assert_eq!(check_schedule(2, &[]), Err(AggregationError::AggregationArityMismatch));
    assert_eq!(
        check_schedule(5, &[usize::MAX, 2]),
        Err(AggregationError::AggregationArityMismatch)
    );
}
