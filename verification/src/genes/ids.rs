use vstd::prelude::*;

verus! {

/// Opaque 64-bit gene identity: totally ordered and hashable. An `Id` is
/// derived by hashing (see `Connection::next_id`), never counted, so ids minted
/// from the same ancestor gene stay comparable across genomes.
#[derive(Clone, Copy, PartialEq, Eq, Structural, PartialOrd, Ord, Hash, Debug)]
pub struct Id(pub u64);

} // verus!
