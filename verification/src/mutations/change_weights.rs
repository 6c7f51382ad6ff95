use vstd::prelude::*;

use crate::genes::connections::{Connection, MAX_WEIGHT_CAP};
use crate::genome::Genome;
use crate::mutations::{Mutations, CHANCE_SCALE};
use crate::rng::below;

verus! {

/// The connection kept its identity and counter; its weight is either
/// untouched or was re-perturbed from inside the cap to inside the cap.
pub open spec fn weight_adjusted(before: Connection, after: Connection, cap: i64) -> bool {
    &&& after.input == before.input
    &&& after.output == before.output
    &&& after.id_counter == before.id_counter
    &&& (after.weight == before.weight || (-cap <= before.weight <= cap && -cap <= after.weight
        <= cap))
}

/// Every connection of both sets kept its identity, counter and place; each
/// weight is either untouched or was re-perturbed from inside the cap to
/// inside the cap; the node sets are as they were. This holds of every
/// outcome of `change_weights`, a wholly skipped pass included.
pub open spec fn weights_adjusted(before: Genome, after: Genome, cap: i64) -> bool {
    &&& after.inputs@ == before.inputs@
    &&& after.hidden@ == before.hidden@
    &&& after.outputs@ == before.outputs@
    &&& after.feed_forward@.len() == before.feed_forward@.len()
    &&& after.recurrent@.len() == before.recurrent@.len()
    &&& forall|t: int|
        0 <= t < before.feed_forward@.len() ==> weight_adjusted(
            #[trigger] before.feed_forward@[t],
            after.feed_forward@[t],
            cap,
        )
    &&& forall|t: int|
        0 <= t < before.recurrent@.len() ==> weight_adjusted(
            #[trigger] before.recurrent@[t],
            after.recurrent@[t],
            cap,
        )
}

impl Mutations {
    /// For a randomly chosen fraction (`percent_perturbed`, in `CHANCE_SCALE`
    /// units) of the existing connections of both sets, apply the weight
    /// perturbation with the given cap. A connection whose current weight
    /// already lies outside the cap is left untouched: the contraction scheme
    /// starts from a weight inside the bound.
    pub fn change_weights(
        percent_perturbed: u64,
        weight_cap: i64,
        genome: &mut Genome,
        rng: &mut rand::rngs::SmallRng,
    )
        requires
            old(genome).wf(),
            0 <= weight_cap <= MAX_WEIGHT_CAP,
        ensures
            final(genome).wf(),
            weights_adjusted(*old(genome), *final(genome), weight_cap),
    {
        let mut i: usize = 0;
        while i < genome.feed_forward.len()
            invariant
                genome.wf(),
                genome.inputs@ == old(genome).inputs@,
                genome.hidden@ == old(genome).hidden@,
                genome.outputs@ == old(genome).outputs@,
                genome.recurrent@ == old(genome).recurrent@,
                genome.feed_forward@.len() == old(genome).feed_forward@.len(),
                0 <= weight_cap <= MAX_WEIGHT_CAP,
                i <= genome.feed_forward@.len(),
                forall|t: int|
                    0 <= t < i ==> weight_adjusted(
                        old(genome).feed_forward@[t],
                        genome.feed_forward@[t],
                        weight_cap,
                    ),
                forall|t: int|
                    i <= t < genome.feed_forward@.len() ==> genome.feed_forward@[t] == old(
                        genome,
                    ).feed_forward@[t],
            decreases genome.feed_forward@.len() - i,
        {
            let draw = below(rng, CHANCE_SCALE);
            let current = genome.feed_forward[i];
            if draw < percent_perturbed && -weight_cap <= current.weight && current.weight
                <= weight_cap {
                let mut replaced = current;
                replaced.perturb_weight(weight_cap, rng);
                let ghost prev = *genome;
                genome.feed_forward[i] = replaced;
                proof {
                    lemma_update_same_identity_wf(prev, *genome, i as int, true);
                }
            }
            i = i + 1;
        }
        let mut j: usize = 0;
        while j < genome.recurrent.len()
            invariant
                genome.wf(),
                genome.inputs@ == old(genome).inputs@,
                genome.hidden@ == old(genome).hidden@,
                genome.outputs@ == old(genome).outputs@,
                genome.recurrent@.len() == old(genome).recurrent@.len(),
                genome.feed_forward@.len() == old(genome).feed_forward@.len(),
                0 <= weight_cap <= MAX_WEIGHT_CAP,
                j <= genome.recurrent@.len(),
                forall|t: int|
                    0 <= t < old(genome).feed_forward@.len() ==> weight_adjusted(
                        old(genome).feed_forward@[t],
                        genome.feed_forward@[t],
                        weight_cap,
                    ),
                forall|t: int|
                    0 <= t < j ==> weight_adjusted(
                        old(genome).recurrent@[t],
                        genome.recurrent@[t],
                        weight_cap,
                    ),
                forall|t: int|
                    j <= t < genome.recurrent@.len() ==> genome.recurrent@[t] == old(
                        genome,
                    ).recurrent@[t],
            decreases genome.recurrent@.len() - j,
        {
            let draw = below(rng, CHANCE_SCALE);
            let current = genome.recurrent[j];
            if draw < percent_perturbed && -weight_cap <= current.weight && current.weight
                <= weight_cap {
                let mut replaced = current;
                replaced.perturb_weight(weight_cap, rng);
                let ghost prev = *genome;
                genome.recurrent[j] = replaced;
                proof {
                    lemma_update_same_identity_wf(prev, *genome, j as int, false);
                }
            }
            j = j + 1;
        }
    }
}

/// Replacing one connection of a well-formed genome by one with the same
/// identity and counter keeps the genome well-formed.
proof fn lemma_update_same_identity_wf(before: Genome, after: Genome, i: int, in_ff: bool)
    requires
        before.wf(),
        after.inputs@ == before.inputs@,
        after.hidden@ == before.hidden@,
        after.outputs@ == before.outputs@,
        in_ff ==> {
            &&& 0 <= i < before.feed_forward@.len()
            &&& after.recurrent@ == before.recurrent@
            &&& after.feed_forward@.len() == before.feed_forward@.len()
            &&& after.feed_forward@[i].input == before.feed_forward@[i].input
            &&& after.feed_forward@[i].output == before.feed_forward@[i].output
            &&& forall|t: int|
                0 <= t < before.feed_forward@.len() && t != i ==> after.feed_forward@[t] == before.feed_forward@[t]
        },
        !in_ff ==> {
            &&& 0 <= i < before.recurrent@.len()
            &&& after.feed_forward@ == before.feed_forward@
            &&& after.recurrent@.len() == before.recurrent@.len()
            &&& after.recurrent@[i].input == before.recurrent@[i].input
            &&& after.recurrent@[i].output == before.recurrent@[i].output
            &&& forall|t: int|
                0 <= t < before.recurrent@.len() && t != i ==> after.recurrent@[t] == before.recurrent@[t]
        },
    ensures
        after.wf(),
{
    assert(after.nodes() == before.nodes());
    assert(after.end_nodes() == before.end_nodes());
    assert forall|a: int, b: int|
        0 <= a < b < after.feed_forward@.len() implies !((#[trigger] after.feed_forward@[a]).input
        == (#[trigger] after.feed_forward@[b]).input && after.feed_forward@[a].output
        == after.feed_forward@[b].output) by {
        assert(after.feed_forward@[a].input == before.feed_forward@[a].input
            && after.feed_forward@[a].output == before.feed_forward@[a].output);
        assert(after.feed_forward@[b].input == before.feed_forward@[b].input
            && after.feed_forward@[b].output == before.feed_forward@[b].output);
        assert(!(before.feed_forward@[a].input == before.feed_forward@[b].input
            && before.feed_forward@[a].output == before.feed_forward@[b].output));
    }
    assert forall|a: int, b: int|
        0 <= a < b < after.recurrent@.len() implies !((#[trigger] after.recurrent@[a]).input
        == (#[trigger] after.recurrent@[b]).input && after.recurrent@[a].output
        == after.recurrent@[b].output) by {
        assert(after.recurrent@[a].input == before.recurrent@[a].input
            && after.recurrent@[a].output == before.recurrent@[a].output);
        assert(after.recurrent@[b].input == before.recurrent@[b].input
            && after.recurrent@[b].output == before.recurrent@[b].output);
        assert(!(before.recurrent@[a].input == before.recurrent@[b].input
            && before.recurrent@[a].output == before.recurrent@[b].output));
    }
    assert forall|k: int| 0 <= k < after.feed_forward@.len() implies after.ff_edge_ok(
        #[trigger] after.feed_forward@[k],
    ) by {
        assert(before.ff_edge_ok(before.feed_forward@[k]));
        assert(after.feed_forward@[k].input == before.feed_forward@[k].input
            && after.feed_forward@[k].output == before.feed_forward@[k].output);
    }
    assert forall|k: int| 0 <= k < after.recurrent@.len() implies after.rec_edge_ok(
        #[trigger] after.recurrent@[k],
    ) by {
        assert(before.rec_edge_ok(before.recurrent@[k]));
        assert(after.recurrent@[k].input == before.recurrent@[k].input
            && after.recurrent@[k].output == before.recurrent@[k].output);
    }
}

} // verus!
