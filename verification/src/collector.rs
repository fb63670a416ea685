//! Containers that are built by appending one value after another.

use vstd::prelude::*;
use std::collections::VecDeque;

verus! {

/// A container of `X` that starts empty and takes in one value at a time.
///
/// The contracts speak of a container by `items`, the values in the order in
/// which they came. A list holds them that way. A container that orders or
/// merges what it holds can implement the trait too, if it keeps the order of
/// arrival as ghost state beside its contents and gives that as `items`.
pub trait Collector<X>: Sized {
    /// The values taken in so far, oldest first.
    spec fn items(&self) -> Seq<X>;

    /// A container that holds nothing yet.
    fn empty() -> (c: Self)
        ensures
            c.items() == Seq::<X>::empty(),
    ;

    /// Takes `x` in, behind everything taken in before.
    fn accept(&mut self, x: X)
        ensures
            final(self).items() == old(self).items().push(x),
    ;
}

impl<X> Collector<X> for Vec<X> {
    open spec fn items(&self) -> Seq<X> {
        self@
    }

    fn empty() -> (c: Self) {
        Vec::new()
    }

    fn accept(&mut self, x: X) {
        self.push(x);
    }
}

impl<X> Collector<X> for VecDeque<X> {
    open spec fn items(&self) -> Seq<X> {
        self@
    }

    fn empty() -> (c: Self) {
        VecDeque::new()
    }

    fn accept(&mut self, x: X) {
        self.push_back(x);
    }
}

} // verus!
