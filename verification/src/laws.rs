//! What holds of every aggregation.

use vstd::prelude::*;
use crate::collector::Collector;
use crate::model::{
    aggregate, all_succeed, as_results, failure_of, failures, first_failure,
    lemma_all_succeed, lemma_failures_from_first, lemma_filter_map_concat, lemma_first_failure,
    success_of, successes,
};
use crate::outcome::Validation;

verus! {

/// A sequence without a failure aggregates to a success that holds the value
/// of each element at the element's own position, so as many values as the
/// sequence has elements.
pub proof fn law_no_failure_keeps_every_success<T, E>(s: Seq<Result<T, E>>)
    requires
        all_succeed(s),
    ensures
        aggregate(s) is Success,
        aggregate(s)->Success_0.len() == s.len(),
        forall|i: int| 0 <= i < s.len() ==> s[i] == Ok::<T, E>(aggregate(s)->Success_0[i]),
{
    lemma_all_succeed(s);
}

/// A sequence with a failure aggregates to a failure. Its first value is
/// that of the first failing element, and behind it stand the failure values
/// of what follows that element in the sequence.
pub proof fn law_failure_starts_at_first<T, E>(s: Seq<Result<T, E>>)
    requires
        !all_succeed(s),
    ensures
        aggregate(s) is Failure,
        0 <= first_failure(s) < s.len(),
        forall|j: int| 0 <= j < first_failure(s) ==> s[j] is Ok,
        s[first_failure(s)] is Err,
        aggregate(s)->Failure_0.len() >= 1,
        aggregate(s)->Failure_0[0] == s[first_failure(s)]->Err_0,
        aggregate(s)->Failure_0.drop_first() == failures(s.skip(first_failure(s) + 1)),
{
    lemma_first_failure(s);
    lemma_failures_from_first(s);
    let tail = failures(s.skip(first_failure(s) + 1));
    assert((seq![s[first_failure(s)]->Err_0] + tail).drop_first() == tail);
}

/// Every element is counted once: as a success value or as a failure value.
pub proof fn law_values_partition<T, E>(s: Seq<Result<T, E>>)
    ensures
        successes(s).len() + failures(s).len() == s.len(),
    decreases s.len(),
{
    if s.len() > 0 {
        law_values_partition(s.drop_last());
    }
}

/// The value of the failing element at `i` stands among the failure values
/// behind those of the failures in front of `i`, and in front of every later
/// one: the failure values keep the order of the sequence, and no success
/// stands between them.
pub proof fn law_failures_keep_order<T, E>(s: Seq<Result<T, E>>, i: int)
    requires
        0 <= i < s.len(),
        s[i] is Err,
    ensures
        failures(s.take(i)).len() < failures(s).len(),
        failures(s)[failures(s.take(i)).len() as int] == s[i]->Err_0,
{
    let f = |r: Result<T, E>| failure_of(r);
    let head = s.take(i);
    let tail = s.skip(i + 1);
    assert(s =~= (head + seq![s[i]]) + tail);
    lemma_filter_map_concat(head + seq![s[i]], tail, f);
    lemma_filter_map_concat(head, seq![s[i]], f);
    Seq::lemma_filter_map_singleton(s[i], f);
}

/// The success value of the element at `i` stands among the success values
/// behind those of the successes in front of `i`.
pub proof fn law_successes_keep_order<T, E>(s: Seq<Result<T, E>>, i: int)
    requires
        0 <= i < s.len(),
        s[i] is Ok,
    ensures
        successes(s.take(i)).len() < successes(s).len(),
        successes(s)[successes(s.take(i)).len() as int] == s[i]->Ok_0,
{
    let f = |r: Result<T, E>| success_of(r);
    let head = s.take(i);
    let tail = s.skip(i + 1);
    assert(s =~= (head + seq![s[i]]) + tail);
    lemma_filter_map_concat(head + seq![s[i]], tail, f);
    lemma_filter_map_concat(head, seq![s[i]], f);
    Seq::lemma_filter_map_singleton(s[i], f);
}

/// The empty sequence aggregates to a success that holds nothing.
pub proof fn law_empty_is_success<T, E>()
    ensures
        aggregate(Seq::<Result<T, E>>::empty()) == Validation::<Seq<T>, Seq<E>>::Success(
            Seq::empty(),
        ),
{
}

/// Converting an aggregate to a result keeps its case and its payload:
/// building the aggregate anew from that result gives the same aggregate,
/// and the other way round.
pub proof fn law_conversion_round_trip<T, E>(v: Validation<T, E>, r: Result<T, E>)
    ensures
        v is Success <==> v.as_result() is Ok,
        Validation::of_result(v.as_result()) == v,
        Validation::of_result(r).as_result() == r,
{
}

/// Flattening treats each aggregate as the result it converts to: what it
/// gives is decided by the cases and payloads of the aggregates themselves.
pub proof fn law_flattening_by_payload<T, E>(vs: Seq<Validation<T, E>>)
    ensures
        as_results(vs).len() == vs.len(),
        all_succeed(as_results(vs)) <==> forall|i: int| 0 <= i < vs.len() ==> vs[i] is Success,
        successes(as_results(vs)) == vs.filter_map(
            |v: Validation<T, E>| success_of(v.as_result()),
        ),
        failures(as_results(vs)) == vs.filter_map(
            |v: Validation<T, E>| failure_of(v.as_result()),
        ),
    decreases vs.len(),
{
    let rs = as_results(vs);
    if all_succeed(rs) {
        assert forall|i: int| 0 <= i < vs.len() implies vs[i] is Success by {
            assert(rs[i] is Ok);
        }
    }
    if vs.len() > 0 {
        law_flattening_by_payload(vs.drop_last());
        assert(rs.drop_last() == as_results(vs.drop_last()));
    }
}

/// Flattening a sequence of aggregates and aggregating the results that they
/// convert to give outcomes with the same contents.
pub proof fn law_flattening_agrees<T, E, VT: Collector<T>, VE: Collector<E>>(
    vs: Seq<Validation<T, E>>,
    rs: Seq<Result<T, E>>,
    flat: Validation<VT, VE>,
    direct: Validation<VT, VE>,
)
    requires
        rs.len() == vs.len(),
        forall|i: int| 0 <= i < vs.len() ==> rs[i] == vs[i].as_result(),
        flat.contents::<T, E>() == aggregate(as_results(vs)),
        direct.contents::<T, E>() == aggregate(rs),
    ensures
        flat.contents::<T, E>() == direct.contents::<T, E>(),
{
    assert(rs == as_results(vs));
}

} // verus!
