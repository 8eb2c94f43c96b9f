use vstd::prelude::*;

verus! {

/// What can go wrong in a multiplication, a dot product or a counter update.
#[derive(Debug, Clone, Copy, PartialEq, Eq, Structural)]
pub enum Error {
    /// The operands' shapes do not fit the requested operation.
    DimensionMismatch,
    /// A task could not be handed to a worker because its queue was closed.
    DispatchFailure,
    /// A reply channel closed before it delivered a usable result.
    CollectionFailure,
    /// An increment named a key that a fixed-key counter set does not hold.
    KeyNotFound,
}

} // verus!
