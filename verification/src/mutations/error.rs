use vstd::prelude::*;

verus! {

/// The closed set of typed infeasibility outcomes: expected, recoverable
/// results meaning "no legal move available on this attempt", one per
/// operator that can be structurally infeasible.
#[derive(Clone, Copy, PartialEq, Eq, Structural, Debug)]
pub enum MutationError {
    CouldNotAddConnection,
    CouldNotAddRecurrentConnection,
    CouldNotRemoveNode,
    CouldNotRemoveConnection,
    CouldNotRemoveRecurrentConnection,
}

} // verus!
