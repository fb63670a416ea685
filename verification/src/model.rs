//! What aggregation means, over mathematical sequences.

use vstd::prelude::*;
use crate::outcome::Validation;

verus! {

/// The success value of `r`, if it has one.
pub open spec fn success_of<T, E>(r: Result<T, E>) -> Option<T> {
    match r {
        Ok(t) => Some(t),
        Err(_) => None,
    }
}

/// The failure value of `r`, if it has one.
pub open spec fn failure_of<T, E>(r: Result<T, E>) -> Option<E> {
    match r {
        Ok(_) => None,
        Err(e) => Some(e),
    }
}

/// The success values of `s`, in the order of `s`.
pub open spec fn successes<T, E>(s: Seq<Result<T, E>>) -> Seq<T> {
    s.filter_map(|r: Result<T, E>| success_of(r))
}

/// The failure values of `s`, in the order of `s`.
pub open spec fn failures<T, E>(s: Seq<Result<T, E>>) -> Seq<E> {
    s.filter_map(|r: Result<T, E>| failure_of(r))
}

/// No element of `s` is a failure.
pub open spec fn all_succeed<T, E>(s: Seq<Result<T, E>>) -> bool {
    forall|i: int| 0 <= i < s.len() ==> s[i] is Ok
}

/// The position of the first failure in `s`, or the length of `s` where it
/// holds none.
pub open spec fn first_failure<T, E>(s: Seq<Result<T, E>>) -> int
    decreases s.len(),
{
    if s.len() == 0 || s[0] is Err {
        0
    } else {
        1 + first_failure(s.drop_first())
    }
}

/// The aggregate of `s`: all its success values where nothing failed, and
/// else all its failure values, the successes dropped.
pub open spec fn aggregate<T, E>(s: Seq<Result<T, E>>) -> Validation<Seq<T>, Seq<E>> {
    if all_succeed(s) {
        Validation::Success(successes(s))
    } else {
        Validation::Failure(failures(s))
    }
}

/// Each aggregate of `vs` as the result that stands for it.
pub open spec fn as_results<T, E>(vs: Seq<Validation<T, E>>) -> Seq<Result<T, E>> {
    vs.map_values(|v: Validation<T, E>| v.as_result())
}

/// `first_failure` is the least position that holds a failure.
pub proof fn lemma_first_failure<T, E>(s: Seq<Result<T, E>>)
    ensures
        0 <= first_failure(s) <= s.len(),
        forall|j: int| 0 <= j < first_failure(s) ==> s[j] is Ok,
        first_failure(s) < s.len() ==> s[first_failure(s)] is Err,
        first_failure(s) == s.len() <==> all_succeed(s),
    decreases s.len(),
{
    if s.len() > 0 && s[0] is Ok {
        let rest = s.drop_first();
        lemma_first_failure(rest);
        assert forall|j: int| 0 <= j < first_failure(s) implies s[j] is Ok by {
            if j > 0 {
                assert(s[j] == rest[j - 1]);
            }
        }
        if all_succeed(s) {
            assert(all_succeed(rest));
        }
    }
}

/// Selecting from a concatenation selects from each part in turn.
pub proof fn lemma_filter_map_concat<A, B>(a: Seq<A>, b: Seq<A>, f: spec_fn(A) -> Option<B>)
    ensures
        (a + b).filter_map(f) == a.filter_map(f) + b.filter_map(f),
    decreases b.len(),
{
    if b.len() > 0 {
        assert((a + b).drop_last() == a + b.drop_last());
        lemma_filter_map_concat(a, b.drop_last(), f);
    }
}

/// Where nothing failed there are no failure values, and the success values
/// are the elements' own, one for one.
pub proof fn lemma_all_succeed<T, E>(s: Seq<Result<T, E>>)
    requires
        all_succeed(s),
    ensures
        failures(s) == Seq::<E>::empty(),
        successes(s).len() == s.len(),
        forall|i: int| 0 <= i < s.len() ==> s[i] == Ok::<T, E>(#[trigger] successes(s)[i]),
    decreases s.len(),
{
    if s.len() > 0 {
        assert(all_succeed(s.drop_last()));
        lemma_all_succeed(s.drop_last());
    }
}

/// Where something failed, the failure values are that of the first failure
/// and then those of everything behind it.
pub proof fn lemma_failures_from_first<T, E>(s: Seq<Result<T, E>>)
    requires
        !all_succeed(s),
    ensures
        0 <= first_failure(s) < s.len(),
        s[first_failure(s)] is Err,
        failures(s) == seq![s[first_failure(s)]->Err_0] + failures(
            s.skip(first_failure(s) + 1),
        ),
{
    lemma_first_failure(s);
    let k = first_failure(s);
    let head = s.take(k);
    let tail = s.skip(k + 1);
    let f = |r: Result<T, E>| failure_of(r);
    assert(s == (head + seq![s[k]]) + tail);
    lemma_filter_map_concat(head + seq![s[k]], tail, f);
    lemma_filter_map_concat(head, seq![s[k]], f);
    lemma_all_succeed(head);
    Seq::lemma_filter_map_singleton(s[k], f);
}

} // verus!
