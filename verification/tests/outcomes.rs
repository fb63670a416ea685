use std::collections::VecDeque;
use validation::{Collector, Validation};

type Outcome = Validation<Vec<i32>, Vec<i32>>;

fn aggregate(input: Vec<Result<i32, i32>>) -> Outcome {
    Validation::from_iter(input.into_iter())
}

#[test]
fn empty_input_is_empty_success() {
    assert_eq!(aggregate(vec![]), Validation::Success(vec![]));
}

#[test]
fn single_success_is_kept() {
    assert_eq!(aggregate(vec![Ok(1)]), Validation::Success(vec![1]));
}

#[test]
fn single_failure_is_kept() {
    assert_eq!(aggregate(vec![Err(1)]), Validation::Failure(vec![1]));
}

#[test]
fn success_behind_a_failure_is_dropped() {
    assert_eq!(aggregate(vec![Err(1), Ok(2)]), Validation::Failure(vec![1]));
}

#[test]
fn mixed_input_keeps_only_the_failures() {
    assert_eq!(
        aggregate(vec![Ok(1), Err(2), Ok(3), Err(4)]),
        Validation::Failure(vec![2, 4])
    );
}

#[test]
fn ten_successes_in_order() {
    let input: Vec<Result<i32, i32>> = (0..10).map(|x: i32| Ok(x)).collect();
    assert_eq!(
        aggregate(input),
        Validation::Success(vec![0, 1, 2, 3, 4, 5, 6, 7, 8, 9])
    );
}

#[test]
fn ten_failures_in_order() {
    let input: Vec<Result<i32, i32>> = (0..10).map(|x: i32| Err(x)).collect();
    assert_eq!(
        aggregate(input),
        Validation::Failure(vec![0, 1, 2, 3, 4, 5, 6, 7, 8, 9])
    );
}

#[test]
fn success_has_one_value_for_each_element() {
    let input: Vec<Result<i32, i32>> = vec![Ok(7), Ok(7), Ok(-3), Ok(0)];
    let values: Vec<i32> = aggregate(input.clone()).into_result().unwrap();
    assert_eq!(values.len(), input.len());
    assert_eq!(values, vec![7, 7, -3, 0]);
}

#[test]
fn failure_starts_with_the_first_failing_element() {
    let input: Vec<Result<i32, i32>> = vec![Ok(1), Ok(2), Err(30), Err(10), Ok(5), Err(20)];
    let values: Vec<i32> = aggregate(input).into_result().unwrap_err();
    assert_eq!(values[0], 30);
    assert_eq!(values, vec![30, 10, 20]);
}

#[test]
fn failure_as_last_element_is_found() {
    assert_eq!(
        aggregate(vec![Ok(1), Ok(2), Ok(3), Err(4)]),
        Validation::Failure(vec![4])
    );
}

#[test]
fn failures_are_not_deduplicated() {
    assert_eq!(
        aggregate(vec![Err(1), Err(1), Ok(1), Err(1)]),
        Validation::Failure(vec![1, 1, 1])
    );
}

#[test]
fn into_result_keeps_case_and_payload() {
    let good: Validation<i32, &str> = Validation::Success(5);
    let bad: Validation<i32, &str> = Validation::Failure("no");
    assert_eq!(good.into_result(), Ok(5));
    assert_eq!(bad.into_result(), Err("no"));
}

#[test]
fn into_result_of_an_aggregation() {
    assert_eq!(aggregate(vec![Ok(1), Ok(2)]).into_result(), Ok(vec![1, 2]));
    assert_eq!(aggregate(vec![Ok(1), Err(2)]).into_result(), Err(vec![2]));
}

#[test]
fn every_element_is_taken_exactly_once() {
    let mut taken: Vec<i32> = Vec::new();
    let input: Vec<Result<i32, i32>> = vec![Ok(1), Err(2), Ok(3), Err(4), Ok(5)];
    let out: Outcome = Validation::from_iter(input.into_iter().enumerate().map(
        |(i, r): (usize, Result<i32, i32>)| {
            taken.push(i as i32);
            r
        },
    ));
    assert_eq!(out, Validation::Failure(vec![2, 4]));
    assert_eq!(taken, vec![0, 1, 2, 3, 4]);
}

#[test]
fn from_results_agrees_with_from_iter() {
    let input: Vec<Result<i32, i32>> = vec![Ok(1), Err(2), Ok(3), Err(4)];
    let by_vec: Outcome = Validation::from_results(input.clone());
    assert_eq!(by_vec, Validation::Failure(vec![2, 4]));
    assert_eq!(by_vec, aggregate(input));
    let all_good: Outcome = Validation::from_results(vec![Ok(1), Ok(2)]);
    assert_eq!(all_good, Validation::Success(vec![1, 2]));
}

#[test]
fn flattening_successes() {
    let input: Vec<Validation<i32, i32>> = vec![Validation::Success(1), Validation::Success(2)];
    let out: Outcome = Validation::from_validations(input.into_iter());
    assert_eq!(out, Validation::Success(vec![1, 2]));
}

#[test]
fn flattening_drops_successes_once_something_failed() {
    let input: Vec<Validation<i32, i32>> = vec![
        Validation::Success(1),
        Validation::Failure(2),
        Validation::Success(3),
        Validation::Failure(4),
    ];
    let out: Outcome = Validation::from_validations(input.into_iter());
    assert_eq!(out, Validation::Failure(vec![2, 4]));
}

#[test]
fn flattening_nothing_is_empty_success() {
    let input: Vec<Validation<i32, i32>> = vec![];
    let out: Outcome = Validation::from_validations(input.into_iter());
    assert_eq!(out, Validation::Success(vec![]));
}

#[test]
fn flattening_agrees_with_converting_first() {
    let input: Vec<Validation<i32, i32>> = vec![
        Validation::Success(10),
        Validation::Success(11),
        Validation::Failure(12),
        Validation::Success(13),
        Validation::Failure(14),
        Validation::Failure(15),
    ];
    let flat: Outcome = Validation::from_validations(input.clone().into_iter());
    let direct: Outcome = Validation::from_iter(
        input.into_iter().map(|v: Validation<i32, i32>| v.into_result()),
    );
    assert_eq!(flat, direct);
    assert_eq!(flat, Validation::Failure(vec![12, 14, 15]));
}

#[test]
fn aggregates_of_aggregates_compose() {
    let first: Outcome = aggregate(vec![Ok(1), Ok(2)]);
    let second: Outcome = aggregate(vec![Ok(3), Err(4), Err(5)]);
    let third: Outcome = aggregate(vec![Err(6)]);
    let out: Validation<Vec<Vec<i32>>, Vec<Vec<i32>>> =
        Validation::from_validations(vec![first, second, third].into_iter());
    assert_eq!(out, Validation::Failure(vec![vec![4, 5], vec![6]]));
}

#[test]
fn other_containers_collect_in_order() {
    let input: Vec<Result<i32, char>> = vec![Ok(1), Err('a'), Ok(2), Err('b')];
    let out: Validation<VecDeque<i32>, VecDeque<char>> = Validation::from_iter(input.into_iter());
    assert_eq!(out, Validation::Failure(VecDeque::from(vec!['a', 'b'])));
    let input: Vec<Result<i32, char>> = vec![Ok(1), Ok(2), Ok(3)];
    let out: Validation<VecDeque<i32>, Vec<char>> = Validation::from_iter(input.into_iter());
    assert_eq!(out, Validation::Success(VecDeque::from(vec![1, 2, 3])));
}

#[test]
fn collectors_start_empty_and_grow_at_the_back() {
    let mut v: Vec<i32> = Collector::empty();
    assert!(v.is_empty());
    v.accept(1);
    v.accept(2);
    assert_eq!(v, vec![1, 2]);
    let mut d: VecDeque<i32> = Collector::empty();
    assert!(d.is_empty());
    d.accept(1);
    d.accept(2);
    assert_eq!(d, VecDeque::from(vec![1, 2]));
}

#[test]
fn equality_and_order_follow_case_then_payload() {
    let a: Validation<i32, i32> = Validation::Success(5);
    let b: Validation<i32, i32> = Validation::Failure(0);
    assert!(a < b);
    assert!(Validation::<i32, i32>::Success(1) < Validation::Success(2));
    assert!(Validation::<i32, i32>::Failure(1) < Validation::Failure(2));
    assert_ne!(Validation::<i32, i32>::Success(1), Validation::Failure(1));
    let copy: Validation<i32, i32> = a;
    assert_eq!(copy, a.clone());
}
