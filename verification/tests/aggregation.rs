use validation::Validation;

#[derive(Eq, PartialEq, Debug)]
struct Good(i32);

#[derive(Eq, PartialEq, Debug)]
struct Bad(i32);

#[test]
fn no_results_is_ok() {
    let input: Vec<Result<Good, Bad>> = vec![];
    let res: Validation<Vec<Good>, Vec<Bad>> = Validation::from_iter(input.into_iter());
    assert_eq!(res, Validation::Success(vec![]));
    assert_eq!(res.into_result(), Ok(vec![]));
}

#[test]
fn one_good() {
    let input: Vec<Result<Good, Bad>> = vec![Ok(Good(1))];
    let res: Validation<Vec<Good>, Vec<Bad>> = Validation::from_iter(input.into_iter());
    assert_eq!(res, Validation::Success(vec![Good(1)]));
}

#[test]
fn one_bad() {
    let input: Vec<Result<Good, Bad>> = vec![Err(Bad(1))];
    let res: Validation<Vec<Good>, Vec<Bad>> = Validation::from_iter(input.into_iter());
    assert_eq!(res, Validation::Failure(vec![Bad(1)]));
}

#[test]
fn one_good_one_bad() {
    let input: Vec<Result<Good, Bad>> = vec![Err(Bad(1)), Ok(Good(2))];
    let res: Validation<Vec<Good>, Vec<Bad>> = Validation::from_iter(input.into_iter());
    assert_eq!(res, Validation::Failure(vec![Bad(1)]));
}

#[test]
fn all_good() {
    let input: Vec<Result<Good, Bad>> = (0..10).map(|x: i32| Ok(Good(x))).collect();
    let res: Validation<Vec<Good>, Vec<Bad>> = Validation::from_iter(input.into_iter());
    let expected = Validation::from_validations((0..10).map(|x: i32| Validation::Success(Good(x))));
    assert_eq!(res, expected);
}

#[test]
fn all_bad() {
    let input: Vec<Result<Good, Bad>> = (0..10).map(|x: i32| Err(Bad(x))).collect();
    let res: Validation<Vec<Good>, Vec<Bad>> = Validation::from_iter(input.into_iter());
    let expected = Validation::from_validations((0..10).map(|x: i32| Validation::Failure(Bad(x))));
    assert_eq!(res, expected);
}
