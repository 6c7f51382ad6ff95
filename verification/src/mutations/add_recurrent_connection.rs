use vstd::prelude::*;

use crate::genes::connections::{Connection, WEIGHT_SCALE};
use crate::genes::nodes::Node;
use crate::genome::{contains_node_id, contains_pair, pairs_distinct, Genome};
use crate::mutations::{MutationError, MutationResult, Mutations};
use crate::rng::below;

verus! {

/// Some legal recurrent edge leaves `start`: an end node (hidden or output)
/// other than `start` itself to which `start` is not yet recurrently joined.
pub open spec fn rec_start_feasible(genome: Genome, start: Node) -> bool {
    exists|j: int|
        0 <= j < genome.end_nodes().len() && (#[trigger] genome.end_nodes()[j]).id != start.id
            && !contains_pair(genome.recurrent@, start.id, genome.end_nodes()[j].id)
}

/// Every start node that the bounded scan beginning at offset `k` examines is
/// infeasible. The scan walks the cyclic node sequence from position `k` for
/// `ff_start_nodes().len()` steps, so it covers position `p` exactly when `p`
/// lies in the window directly or after wrapping.
pub open spec fn rec_window_infeasible(genome: Genome, k: int) -> bool {
    forall|p: int|
        0 <= p < genome.nodes().len() && (k <= p < k + genome.ff_start_nodes().len() || p
            + genome.nodes().len() < k + genome.ff_start_nodes().len())
            ==> !rec_start_feasible(genome, #[trigger] genome.nodes()[p])
}

/// Exactly one legal recurrent connection was inserted; everything else of
/// the genome is as it was. The inserted end is the first legal end for the
/// chosen start in the hidden-then-outputs order.
pub open spec fn rec_added(before: Genome, after: Genome) -> bool {
    &&& after.inputs@ == before.inputs@
    &&& after.hidden@ == before.hidden@
    &&& after.outputs@ == before.outputs@
    &&& after.feed_forward@ == before.feed_forward@
    &&& after.recurrent@.len() == before.recurrent@.len() + 1
    &&& after.recurrent@ == before.recurrent@.push(after.recurrent@.last())
    &&& after.recurrent@.last().input != after.recurrent@.last().output
    &&& !contains_pair(
        before.recurrent@,
        after.recurrent@.last().input,
        after.recurrent@.last().output,
    )
    &&& contains_node_id(before.nodes(), after.recurrent@.last().input)
    &&& contains_node_id(before.end_nodes(), after.recurrent@.last().output)
    &&& -WEIGHT_SCALE <= after.recurrent@.last().weight <= WEIGHT_SCALE
    &&& after.recurrent@.last().id_counter == 0
    &&& exists|j: int|
        0 <= j < before.end_nodes().len() && (#[trigger] before.end_nodes()[j]).id
            == after.recurrent@.last().output && (forall|q: int|
            0 <= q < j ==> ((#[trigger] before.end_nodes()[q]).id == after.recurrent@.last().input
                || contains_pair(
                before.recurrent@,
                after.recurrent@.last().input,
                before.end_nodes()[q].id,
            )))
}

impl Mutations {
    /// This mutation adds a recurrent connection to the `genome` when
    /// possible. Candidate starts are all nodes; candidate ends are hidden and
    /// output nodes. The scan begins at a random offset into the cyclic start
    /// sequence, examines at most `|inputs| + |hidden|` starts, and takes the
    /// first start with a legal end; when every examined start is saturated it
    /// reports the typed infeasibility outcome and leaves the genome unchanged.
    pub fn add_recurrent_connection(
        genome: &mut Genome,
        rng: &mut rand::rngs::SmallRng,
    ) -> (r: MutationResult)
        requires
            old(genome).wf(),
        ensures
            final(genome).wf(),
            r is Err ==> *final(genome) == *old(genome),
            r is Err ==> r == Err::<(), MutationError>(
                MutationError::CouldNotAddRecurrentConnection,
            ),
            r is Err ==> (old(genome).ff_start_nodes().len() == 0 || exists|k: int|
                0 <= k < old(genome).ff_start_nodes().len() && rec_window_infeasible(
                    *old(genome),
                    k,
                )),
            old(genome).ff_start_nodes().len() == 0 ==> r is Err,
            r is Ok ==> rec_added(*old(genome), *final(genome)),
    {
        let ni = genome.inputs.len();
        let nh = genome.hidden.len();
        let no = genome.outputs.len();
        proof {
            assert(genome.nodes().len() == ni + nh + no);
            assert(genome.ff_start_nodes().len() == ni + nh);
            assert(genome.end_nodes().len() == nh + no);
        }
        let span = ni + nh;
        let total = span + no;
        let ne = nh + no;
        if span == 0 {
            return Err(MutationError::CouldNotAddRecurrentConnection);
        }
        let k = below(rng, span as u64) as usize;
        let mut c: usize = 0;
        while c < span
            invariant
                *genome == *old(genome),
                genome.wf(),
                c <= span,
                k < span,
                span == ni + nh,
                total == span + no,
                ne == nh + no,
                genome.nodes().len() == total,
                genome.ff_start_nodes().len() == span,
                genome.end_nodes().len() == ne,
                forall|p: int|
                    0 <= p < genome.nodes().len() && (k <= p < k + c || p + genome.nodes().len()
                        < k + c) ==> !rec_start_feasible(*genome, #[trigger] genome.nodes()[p]),
            decreases span - c,
        {
            let pos = if k + c < total {
                k + c
            } else {
                k + c - total
            };
            let start = genome.node_at(pos);
            let mut j: usize = 0;
            while j < ne
                invariant
                    *genome == *old(genome),
                    genome.wf(),
                    genome.ff_start_nodes().len() > 0,
                    j <= ne,
                    ne == genome.end_nodes().len(),
                    pos < genome.nodes().len(),
                    start == genome.nodes()[pos as int],
                    forall|q: int|
                        0 <= q < j ==> ((#[trigger] genome.end_nodes()[q]).id == start.id
                            || contains_pair(
                            genome.recurrent@,
                            start.id,
                            genome.end_nodes()[q].id,
                        )),
                decreases ne - j,
            {
                let end = genome.end_node_at(j);
                if end.id != start.id && !crate::genome::contains_pair_exec(
                    &genome.recurrent,
                    start.id,
                    end.id,
                ) {
                    let weight = Connection::weight_perturbation(0, WEIGHT_SCALE, rng);
                    let conn = Connection::new(start.id, weight, end.id);
                    let ghost before = *genome;
                    genome.recurrent.push(conn);
                    proof {
                        assert(genome.recurrent@.last() == conn);
                        assert forall|a: int, b: int|
                            0 <= a < b < genome.recurrent@.len() implies !(
                        (#[trigger] genome.recurrent@[a]).input
                            == (#[trigger] genome.recurrent@[b]).input && genome.recurrent@[a].output
                            == genome.recurrent@[b].output) by {
                            if b == genome.recurrent@.len() - 1 {
                                assert(genome.recurrent@[a] == before.recurrent@[a]);
                            }
                        }
                        assert(genome.nodes() == before.nodes());
                        assert(genome.end_nodes() == before.end_nodes());
                        assert(contains_node_id(before.nodes(), conn.input));
                        assert(contains_node_id(before.end_nodes(), conn.output));
                        assert forall|t: int|
                            0 <= t < genome.recurrent@.len() implies genome.rec_edge_ok(
                            #[trigger] genome.recurrent@[t],
                        ) by {
                            if t < genome.recurrent@.len() - 1 {
                                assert(before.rec_edge_ok(before.recurrent@[t]));
                            }
                        }
                        assert(genome.wf());
                        assert(rec_added(before, *genome));
                    }
                    return Ok(());
                }
                j = j + 1;
            }
            proof {
                assert(!rec_start_feasible(*genome, start));
                assert(k + c < total ==> pos == k + c);
                assert(k + c >= total ==> pos + genome.nodes().len() == k + c);
            }
            c = c + 1;
        }
        proof {
            assert(rec_window_infeasible(*genome, k as int));
        }
        Err(MutationError::CouldNotAddRecurrentConnection)
    }
}

} // verus!
