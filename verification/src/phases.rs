//! The two phases of one traversal: successes up to the first failure, then
//! the failures of what is left.

use vstd::prelude::*;
use vstd::std_specs::iter::IteratorSpec;
use crate::collector::Collector;
use crate::model::{
    failure_of, failures, first_failure, lemma_filter_map_concat, lemma_first_failure,
    success_of, successes,
};

verus! {

/// The optimistic phase: hands out success values until the input ends or a
/// failure turns up, which it keeps.
pub(crate) struct Phase1<E, I> {
    pub(crate) iter: I,
    pub(crate) err: Option<E>,
}

impl<E, I> Phase1<E, I> {
    /// Takes the next element of the input. A success is handed out; a
    /// failure is kept in `err` and ends the phase.
    pub(crate) fn next<T>(&mut self) -> (ret: Option<T>) where I: Iterator<Item = Result<T, E>>
        requires
            old(self).err is None,
            old(self).iter.obeys_prophetic_iter_laws(),
        ensures
            final(self).iter.obeys_prophetic_iter_laws(),
            old(self).iter.decrease() is Some <==> final(self).iter.decrease() is Some,
            old(self).iter.remaining().len() > 0 && final(self).iter.decrease() is Some
                ==> decreases_to!(old(self).iter.decrease()->0 => final(self).iter.decrease()->0),
            old(self).iter.remaining().len() == 0 ==> {
                &&& ret is None
                &&& final(self).err is None
                &&& final(self).iter.remaining() == old(self).iter.remaining()
            },
            old(self).iter.remaining().len() > 0 ==> {
                &&& ret == success_of(old(self).iter.remaining()[0])
                &&& final(self).err == failure_of(old(self).iter.remaining()[0])
                &&& final(self).iter.remaining() == old(self).iter.remaining().drop_first()
            },
    {
        match self.iter.next() {
            None => None,
            Some(Ok(t)) => Some(t),
            Some(Err(e)) => {
                self.err = Some(e);
                None
            },
        }
    }

    /// Runs the phase to its end and collects what it hands out: the success
    /// values in front of the first failure. The first failure, if there is
    /// one, is left in `err`, and the input stands right behind it.
    pub(crate) fn collect<T, VT>(&mut self) -> (out: VT) where
        I: Iterator<Item = Result<T, E>>,
        VT: Collector<T>,

        requires
            old(self).err is None,
            old(self).iter.obeys_prophetic_iter_laws(),
            old(self).iter.decrease() is Some,
        ensures
            final(self).iter.obeys_prophetic_iter_laws(),
            final(self).iter.decrease() is Some,
            out.items() == successes(
                old(self).iter.remaining().take(first_failure(old(self).iter.remaining())),
            ),
            first_failure(old(self).iter.remaining()) == old(self).iter.remaining().len() ==> {
                &&& final(self).err is None
                &&& final(self).iter.remaining() == Seq::<Result<T, E>>::empty()
            },
            first_failure(old(self).iter.remaining()) < old(self).iter.remaining().len() ==> {
                &&& final(self).err == failure_of(
                    old(self).iter.remaining()[first_failure(old(self).iter.remaining())],
                )
                &&& final(self).iter.remaining() == old(self).iter.remaining().skip(
                    first_failure(old(self).iter.remaining()) + 1,
                )
            },
    {
        let ghost all = self.iter.remaining();
        let ghost n: int = 0;
        let mut out = VT::empty();
        loop
            invariant_except_break
                self.err is None,
                self.iter.remaining() == all.skip(n),
            invariant
                self.iter.obeys_prophetic_iter_laws(),
                self.iter.decrease() is Some,
                0 <= n <= all.len(),
                forall|j: int| 0 <= j < n ==> all[j] is Ok,
                out.items() == successes(all.take(n)),
            ensures
                n == first_failure(all),
                n == all.len() ==> {
                    &&& self.err is None
                    &&& self.iter.remaining() == Seq::<Result<T, E>>::empty()
                },
                n < all.len() ==> {
                    &&& self.err == failure_of(all[n])
                    &&& self.iter.remaining() == all.skip(n + 1)
                },
            decreases self.iter.decrease()->0,
        {
            match self.next() {
                Some(t) => {
                    out.accept(t);
                    proof {
                        assert(all.take(n + 1).drop_last() == all.take(n));
                        assert(all.skip(n).drop_first() == all.skip(n + 1));
                        n = n + 1;
                    }
                },
                None => {
                    proof {
                        lemma_first_failure(all);
                        assert(n < all.len() ==> all.skip(n).drop_first() == all.skip(n + 1));
                    }
                    break ;
                },
            }
        }
        out
    }
}

/// What the failure phase has yet to hand out: the failure it was started
/// with, if it still holds it, and then every failure value of `rest`.
pub(crate) open spec fn pending<T, E>(first: Option<E>, rest: Seq<Result<T, E>>) -> Seq<E> {
    match first {
        Some(e) => seq![e] + failures(rest),
        None => failures(rest),
    }
}

/// The failure phase: hands out the failure that ended the first phase, and
/// then the failure value of every failure left in the input.
pub(crate) struct Phase2<E, I> {
    pub(crate) first: Option<E>,
    pub(crate) iter: I,
}

impl<E, I> Phase2<E, I> {
    /// Hands out the next failure value, or `None` once the input holds no
    /// further failure. The failure that the phase was started with comes
    /// first, and the input is not touched for it. After that the input is
    /// read up to its next failure and stands right behind it, the successes
    /// in front of it passed over; where no failure is left, the input is
    /// read to its end.
    pub(crate) fn next<T>(&mut self) -> (ret: Option<E>) where I: Iterator<Item = Result<T, E>>
        requires
            old(self).iter.obeys_prophetic_iter_laws(),
            old(self).iter.decrease() is Some,
        ensures
            final(self).iter.obeys_prophetic_iter_laws(),
            final(self).iter.decrease() is Some,
            final(self).first is None,
            old(self).first is Some ==> {
                &&& final(self).iter.remaining() == old(self).iter.remaining()
                &&& final(self).iter.decrease() == old(self).iter.decrease()
            },
            old(self).first is None && ret is Some ==> final(self).iter.remaining() == old(
                self,
            ).iter.remaining().skip(first_failure(old(self).iter.remaining()) + 1),
            old(self).first is None && ret is None ==> final(self).iter.remaining() == Seq::<
                Result<T, E>,
            >::empty(),
            old(self).first is None && ret is Some ==> decreases_to!(
                old(self).iter.decrease()->0 => final(self).iter.decrease()->0
            ),
            ret is None <==> pending(old(self).first, old(self).iter.remaining()).len() == 0,
            ret is None ==> pending(final(self).first, final(self).iter.remaining()).len() == 0,
            ret matches Some(e) ==> {
                &&& e == pending(old(self).first, old(self).iter.remaining())[0]
                &&& pending(final(self).first, final(self).iter.remaining()) == pending(
                    old(self).first,
                    old(self).iter.remaining(),
                ).drop_first()
            },
    {
        match self.first.take() {
            Some(e) => {
                assert((seq![e] + failures(self.iter.remaining())).drop_first() == failures(
                    self.iter.remaining(),
                ));
                Some(e)
            },
            None => {
                let ghost all = self.iter.remaining();
                let ghost n: int = 0;
                loop
                    invariant
                        old(self).first is None,
                        all == old(self).iter.remaining(),
                        self.first is None,
                        self.iter.obeys_prophetic_iter_laws(),
                        self.iter.decrease() is Some,
                        0 <= n <= all.len(),
                        self.iter.remaining() == all.skip(n),
                        forall|j: int| 0 <= j < n ==> all[j] is Ok,
                        failures(all) == failures(all.skip(n)),
                        n == 0 ==> self.iter.decrease() == old(self).iter.decrease(),
                        n > 0 ==> decreases_to!(
                            old(self).iter.decrease()->0 => self.iter.decrease()->0
                        ),
                    decreases self.iter.decrease()->0,
                {
                    match self.iter.next() {
                        None => {
                            assert(self.iter.remaining() =~= Seq::<Result<T, E>>::empty());
                            return None;
                        },
                        Some(Ok(_)) => {
                            proof {
                                lemma_failures_skip(all, n);
                                n = n + 1;
                            }
                        },
                        Some(Err(e)) => {
                            proof {
                                lemma_failures_skip(all, n);
                                lemma_first_failure(all);
                            }
                            return Some(e);
                        },
                    }
                }
            },
        }
    }

    /// Runs the phase to its end and collects every failure value that it
    /// hands out.
    pub(crate) fn collect<T, VE>(self) -> (out: VE) where
        I: Iterator<Item = Result<T, E>>,
        VE: Collector<E>,

        requires
            self.iter.obeys_prophetic_iter_laws(),
            self.iter.decrease() is Some,
        ensures
            out.items() == pending(self.first, self.iter.remaining()),
    {
        let mut phase = self;
        let ghost all = pending(phase.first, phase.iter.remaining());
        let mut out = VE::empty();
        loop
            invariant
                phase.iter.obeys_prophetic_iter_laws(),
                phase.iter.decrease() is Some,
                out.items() + pending(phase.first, phase.iter.remaining()) == all,
            ensures
                out.items() == all,
            decreases (if phase.first is Some { 1int } else { 0int }), phase.iter.decrease()->0,
        {
            let ghost left = pending(phase.first, phase.iter.remaining());
            let ghost done = out.items();
            match phase.next() {
                Some(e) => {
                    out.accept(e);
                    assert(done.push(e) + left.drop_first() == done + left);
                },
                None => {
                    assert(done + left == done);
                    break ;
                },
            }
        }
        out
    }
}

/// The failure values from `n` on: that of the element at `n`, if it is a
/// failure, and then those of what stands behind it.
proof fn lemma_failures_skip<T, E>(s: Seq<Result<T, E>>, n: int)
    requires
        0 <= n < s.len(),
    ensures
        s.skip(n).drop_first() == s.skip(n + 1),
        failures(s.skip(n)) == match s[n] {
            Ok(_) => failures(s.skip(n + 1)),
            Err(e) => seq![e] + failures(s.skip(n + 1)),
        },
{
    let rest = s.skip(n + 1);
    let f = |r: Result<T, E>| failure_of(r);
    assert(s.skip(n) == seq![s[n]] + rest);
    lemma_filter_map_concat(seq![s[n]], rest, f);
    Seq::lemma_filter_map_singleton(s[n], f);
}

} // verus!
