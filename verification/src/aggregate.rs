//! Aggregation: from a sequence of results, or of aggregates, to one
//! aggregate.

use vstd::prelude::*;
use vstd::std_specs::iter::IteratorSpec;
use crate::collector::Collector;
use crate::model::{aggregate, as_results, lemma_failures_from_first, lemma_first_failure};
use crate::outcome::Validation;
use crate::phases::{Phase1, Phase2};

verus! {

impl<VT, VE> Validation<VT, VE> {
    /// The aggregate with each container replaced by the values it holds.
    pub open spec fn contents<T, E>(self) -> Validation<Seq<T>, Seq<E>> where
        VT: Collector<T>,
        VE: Collector<E>,
    {
        match self {
            Validation::Success(c) => Validation::Success(c.items()),
            Validation::Failure(c) => Validation::Failure(c.items()),
        }
    }

    /// Aggregates everything that `iter` yields, in one pass. Where no
    /// element is a failure the outcome holds every success value, in order.
    /// From the first failure on only failure values are kept: the outcome
    /// then holds the value of every failure, in order, and no success.
    ///
    /// `iter` has to be finite and to keep to the laws of iteration, and to
    /// have a measure that shrinks with every element it yields; what
    /// `Vec::into_iter` returns does.
    pub fn from_iter<T, E, I>(iter: I) -> (out: Self) where
        I: Iterator<Item = Result<T, E>>,
        VT: Collector<T>,
        VE: Collector<E>,

        requires
            iter.obeys_prophetic_iter_laws(),
            iter.decrease() is Some,
        ensures
            out.contents::<T, E>() == aggregate(iter.remaining()),
            out matches Validation::Failure(c) ==> c.items().len() >= 1,
    {
        let ghost all = iter.remaining();
        let mut phase1 = Phase1 { iter, err: None };
        let successes: VT = phase1.collect();
        let Phase1 { iter: rest, err } = phase1;
        proof {
            lemma_first_failure(all);
        }
        match err {
            None => {
                assert(all.take(all.len() as int) == all);
                Validation::Success(successes)
            },
            Some(e) => {
                proof {
                    lemma_failures_from_first(all);
                }
                let phase2 = Phase2 { first: Some(e), iter: rest };
                Validation::Failure(phase2.collect())
            },
        }
    }

    /// Aggregates the elements of `results` as `from_iter` does.
    pub fn from_results<T, E>(results: Vec<Result<T, E>>) -> (out: Self) where
        VT: Collector<T>,
        VE: Collector<E>,

        ensures
            out.contents::<T, E>() == aggregate(results@),
            out matches Validation::Failure(c) ==> c.items().len() >= 1,
    {
        broadcast use vstd::std_specs::vec::axiom_spec_into_iter;

        Self::from_iter(results.into_iter())
    }

    /// Aggregates a sequence of aggregates into one: each element stands for
    /// the result it converts to, and those results are aggregated as
    /// `from_iter` does. `iter` has to meet what `from_iter` asks of its own.
    pub fn from_validations<T, E, I>(iter: I) -> (out: Self) where
        I: Iterator<Item = Validation<T, E>>,
        VT: Collector<T>,
        VE: Collector<E>,

        requires
            iter.obeys_prophetic_iter_laws(),
            iter.decrease() is Some,
        ensures
            out.contents::<T, E>() == aggregate(as_results(iter.remaining())),
            out matches Validation::Failure(c) ==> c.items().len() >= 1,
    {
        let mut iter = iter;
        let ghost all = iter.remaining();
        let ghost n: int = 0;
        let mut results: Vec<Result<T, E>> = Vec::new();
        loop
            invariant
                iter.obeys_prophetic_iter_laws(),
                iter.decrease() is Some,
                0 <= n <= all.len(),
                iter.remaining() == all.skip(n),
                results@ == as_results(all.take(n)),
            ensures
                results@ == as_results(all),
            decreases iter.decrease()->0,
        {
            match iter.next() {
                Some(v) => {
                    results.push(v.into_result());
                    proof {
                        assert(all.skip(n).drop_first() == all.skip(n + 1));
                        assert(as_results(all.take(n)).push(v.as_result()) == as_results(
                            all.take(n + 1),
                        ));
                        n = n + 1;
                    }
                },
                None => {
                    assert(all.take(n) == all);
                    break ;
                },
            }
        }
        Self::from_results(results)
    }
}

} // verus!
