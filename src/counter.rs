//! The operations that every counter variant offers.
use vstd::prelude::*;

use crate::error::CounterError;

verus! {

/// A replicated counter whose value is read as a `T` and which merges state
/// received from counters of type `U`.
///
/// Each variant says through the spec functions below what its operations
/// do; the contracts of the operations are stated once, here, over them.
/// A refused operation leaves the counter as it was.
pub trait Counter<T, U>: Sized {
    /// The counter's invariant: its replica identifier indexes its slots.
    spec fn wf(&self) -> bool;

    /// `other` is a well-formed counter.
    spec fn peer_wf(other: &U) -> bool;

    /// `other` was built for the same number of replicas as `self`.
    spec fn compatible(&self, other: &U) -> bool;

    /// What a local increment of `self` returns.
    spec fn increment_result(&self) -> Result<(), CounterError>;

    /// `after` is `self` after one local increment.
    spec fn incremented(&self, after: &Self) -> bool;

    /// What a local decrement of `self` returns.
    spec fn decrement_result(&self) -> Result<(), CounterError>;

    /// `after` is `self` after one local decrement.
    spec fn decremented(&self, after: &Self) -> bool;

    /// The logical value, or the error when it does not fit in `T`.
    spec fn value_result(&self) -> Result<T, CounterError>;

    /// Every slot of `self` equals the same slot of `other`.
    spec fn same_state(&self, other: &U) -> bool;

    /// `after` is `self` joined with `other`.
    spec fn merged(&self, other: &U, after: &Self) -> bool;

    /// No slot of `after` is below the same slot of `self`.
    spec fn dominated_by(&self, after: &Self) -> bool;

    fn increment(&mut self) -> (r: Result<(), CounterError>)
        requires
            old(self).wf(),
        ensures
            final(self).wf(),
            r == old(self).increment_result(),
            r is Ok ==> old(self).incremented(final(self)),
            r is Err ==> *final(self) == *old(self),
            old(self).dominated_by(final(self)),
    ;

    fn decrement(&mut self) -> (r: Result<(), CounterError>)
        requires
            old(self).wf(),
        ensures
            final(self).wf(),
            r == old(self).decrement_result(),
            r is Ok ==> old(self).decremented(final(self)),
            r is Err ==> *final(self) == *old(self),
            old(self).dominated_by(final(self)),
    ;

    fn value(&self) -> (r: Result<T, CounterError>)
        requires
            self.wf(),
        ensures
            r == self.value_result(),
    ;

    /// Whether `self` and `other` hold the same state, or
    /// `IncompatibleReplicaSets` when they were built for different numbers
    /// of replicas.
    fn compare(&self, other: &U) -> (r: Result<bool, CounterError>)
        requires
            self.wf(),
            Self::peer_wf(other),
        ensures
            self.compatible(other) ==> r == Ok::<bool, CounterError>(self.same_state(other)),
            !self.compatible(other) ==> r == Err::<bool, CounterError>(
                CounterError::IncompatibleReplicaSets,
            ),
    ;

    /// Joins `other` into `self`, or reports `IncompatibleReplicaSets` when
    /// they were built for different numbers of replicas.
    fn merge(&mut self, other: &U) -> (r: Result<(), CounterError>)
        requires
            old(self).wf(),
            Self::peer_wf(other),
        ensures
            final(self).wf(),
            old(self).compatible(other) ==> r is Ok && old(self).merged(other, final(self)),
            !old(self).compatible(other) ==> r == Err::<(), CounterError>(
                CounterError::IncompatibleReplicaSets,
            ) && *final(self) == *old(self),
            old(self).dominated_by(final(self)),
    ;
}

} // verus!
