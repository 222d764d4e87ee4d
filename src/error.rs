use vstd::prelude::*;

verus! {

/// Why an operation on a counter was refused. A refused operation leaves the
/// counter as it was.
#[derive(Debug, Clone, Copy, PartialEq, Eq, Structural)]
pub enum CounterError {
    /// The counter does not support the operation (decrement on a grow-only counter).
    UnsupportedOperation,
    /// The slot to be incremented already holds the largest value of its type.
    CounterOverflow,
    /// The two counters were built for different numbers of replicas.
    IncompatibleReplicaSets,
    /// The counter's value cannot be represented in the result type.
    ValueRangeError,
}

} // verus!
