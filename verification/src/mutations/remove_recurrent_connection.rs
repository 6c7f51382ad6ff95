use vstd::prelude::*;

use crate::genome::{lemma_wf_after_conn_remove, Genome};
use crate::mutations::{MutationError, MutationResult, Mutations};
use crate::rng::below;

verus! {

/// Exactly one recurrent connection was removed; everything else of the
/// genome is as it was.
pub open spec fn rec_removed(before: Genome, after: Genome) -> bool {
    &&& after.inputs@ == before.inputs@
    &&& after.hidden@ == before.hidden@
    &&& after.outputs@ == before.outputs@
    &&& after.feed_forward@ == before.feed_forward@
    &&& exists|i: int|
        0 <= i < before.recurrent@.len() && after.recurrent@ == before.recurrent@.remove(i)
}

impl Mutations {
    /// Remove one uniformly selected recurrent connection; with an empty
    /// recurrent set the operator reports the typed infeasibility outcome and
    /// leaves the genome unchanged.
    pub fn remove_recurrent_connection(genome: &mut Genome, rng: &mut rand::rngs::SmallRng) -> (r:
        MutationResult)
        requires
            old(genome).wf(),
        ensures
            final(genome).wf(),
            r is Err <==> old(genome).recurrent@.len() == 0,
            r is Err ==> *final(genome) == *old(genome),
            r is Err ==> r == Err::<(), MutationError>(
                MutationError::CouldNotRemoveRecurrentConnection,
            ),
            r is Ok ==> rec_removed(*old(genome), *final(genome)),
            r is Ok ==> final(genome).recurrent@.len() == old(genome).recurrent@.len() - 1,
            final(genome).inputs@ == old(genome).inputs@,
            final(genome).hidden@ == old(genome).hidden@,
            final(genome).outputs@ == old(genome).outputs@,
            final(genome).feed_forward@ == old(genome).feed_forward@,
    {
        if genome.recurrent.len() == 0 {
            return Err(MutationError::CouldNotRemoveRecurrentConnection);
        }
        let i = below(rng, genome.recurrent.len() as u64) as usize;
        let ghost before = *genome;
        genome.recurrent.remove(i);
        proof {
            lemma_wf_after_conn_remove(before, *genome, i as int, false);
        }
        Ok(())
    }
}

} // verus!
