//! The aggregate outcome: every success, or every failure.

use vstd::prelude::*;

verus! {

/// The outcome of a whole sequence of fallible computations: either all of
/// them succeeded, or at least one of them failed.
#[derive(Eq, PartialEq, Debug, Ord, PartialOrd, Clone, Copy, Hash)]
pub enum Validation<T, E> {
    /// Every computation succeeded.
    Success(T),
    /// At least one computation failed.
    Failure(E),
}

impl<T, E> Validation<T, E> {
    /// The conventional result that stands for the same case and payload.
    pub open spec fn as_result(self) -> Result<T, E> {
        match self {
            Validation::Success(t) => Ok(t),
            Validation::Failure(e) => Err(e),
        }
    }

    /// The aggregate that stands for the same case and payload as `r`.
    pub open spec fn of_result(r: Result<T, E>) -> Self {
        match r {
            Ok(t) => Validation::Success(t),
            Err(e) => Validation::Failure(e),
        }
    }

    /// Turns the aggregate outcome into a conventional result, keeping the
    /// case and the payload.
    pub fn into_result(self) -> (r: Result<T, E>)
        ensures
            r == self.as_result(),
    {
        match self {
            Validation::Success(t) => Ok(t),
            Validation::Failure(e) => Err(e),
        }
    }
}

} // verus!
