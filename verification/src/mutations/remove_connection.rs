use vstd::prelude::*;

use crate::genome::{lemma_wf_after_conn_remove, Genome};
use crate::mutations::{MutationError, MutationResult, Mutations};
use crate::rng::below;

verus! {

/// Exactly one feed-forward connection was removed; everything else of the
/// genome is as it was.
pub open spec fn ff_removed(before: Genome, after: Genome) -> bool {
    &&& after.inputs@ == before.inputs@
    &&& after.hidden@ == before.hidden@
    &&& after.outputs@ == before.outputs@
    &&& after.recurrent@ == before.recurrent@
    &&& exists|i: int|
        0 <= i < before.feed_forward@.len() && after.feed_forward@ == before.feed_forward@.remove(
            i,
        )
}

impl Mutations {
    /// Remove one uniformly selected feed-forward connection; with an empty
    /// feed-forward set the operator reports the typed infeasibility outcome
    /// and leaves the genome unchanged.
    pub fn remove_connection(genome: &mut Genome, rng: &mut rand::rngs::SmallRng) -> (r:
        MutationResult)
        requires
            old(genome).wf(),
        ensures
            final(genome).wf(),
            r is Err <==> old(genome).feed_forward@.len() == 0,
            r is Err ==> *final(genome) == *old(genome),
            r is Err ==> r == Err::<(), MutationError>(MutationError::CouldNotRemoveConnection),
            r is Ok ==> ff_removed(*old(genome), *final(genome)),
            r is Ok ==> final(genome).feed_forward@.len() == old(genome).feed_forward@.len() - 1,
            final(genome).inputs@ == old(genome).inputs@,
            final(genome).hidden@ == old(genome).hidden@,
            final(genome).outputs@ == old(genome).outputs@,
            final(genome).recurrent@ == old(genome).recurrent@,
    {
        if genome.feed_forward.len() == 0 {
            return Err(MutationError::CouldNotRemoveConnection);
        }
        let i = below(rng, genome.feed_forward.len() as u64) as usize;
        let ghost before = *genome;
        genome.feed_forward.remove(i);
        proof {
            lemma_wf_after_conn_remove(before, *genome, i as int, true);
        }
        Ok(())
    }
}

} // verus!
