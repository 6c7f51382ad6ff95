use vstd::prelude::*;

use crate::genes::connections::{Connection, WEIGHT_SCALE};
use crate::genome::{contains_pair, Genome};
use crate::mutations::{MutationError, MutationResult, Mutations};
use crate::rng::below;

verus! {

/// The position pair (`si` into inputs-then-hidden, `ej` into
/// hidden-then-outputs) names a legal new feed-forward edge: the two nodes
/// are not yet joined in the feed-forward set, and wherever both are hidden
/// the start stands strictly before the end in the hidden topological order,
/// which keeps the feed-forward graph acyclic.
pub open spec fn ff_candidate(genome: Genome, si: int, ej: int) -> bool {
    &&& !contains_pair(
        genome.feed_forward@,
        genome.ff_start_nodes()[si].id,
        genome.end_nodes()[ej].id,
    )
    &&& (si >= genome.inputs@.len() && ej < genome.hidden@.len() ==> si - genome.inputs@.len()
        < ej)
}

/// Some legal new feed-forward edge leaves the start node at position `si`.
pub open spec fn ff_start_feasible(genome: Genome, si: int) -> bool {
    exists|ej: int| 0 <= ej < genome.end_nodes().len() && #[trigger] ff_candidate(genome, si, ej)
}

/// Exactly one legal feed-forward connection was inserted; everything else of
/// the genome is as it was. The inserted end is the first legal end for the
/// chosen start in the hidden-then-outputs order.
pub open spec fn ff_added(before: Genome, after: Genome) -> bool {
    &&& after.inputs@ == before.inputs@
    &&& after.hidden@ == before.hidden@
    &&& after.outputs@ == before.outputs@
    &&& after.recurrent@ == before.recurrent@
    &&& after.feed_forward@.len() == before.feed_forward@.len() + 1
    &&& after.feed_forward@ == before.feed_forward@.push(after.feed_forward@.last())
    &&& after.feed_forward@.last().input != after.feed_forward@.last().output
    &&& !contains_pair(
        before.feed_forward@,
        after.feed_forward@.last().input,
        after.feed_forward@.last().output,
    )
    &&& exists|si: int, ej: int|
        0 <= si < before.ff_start_nodes().len() && 0 <= ej < before.end_nodes().len()
            && #[trigger] ff_candidate(before, si, ej) && before.ff_start_nodes()[si].id
            == after.feed_forward@.last().input && before.end_nodes()[ej].id
            == after.feed_forward@.last().output && (forall|q: int|
            0 <= q < ej ==> !(#[trigger] ff_candidate(before, si, q)))
    &&& -WEIGHT_SCALE <= after.feed_forward@.last().weight <= WEIGHT_SCALE
    &&& after.feed_forward@.last().id_counter == 0
}

impl Mutations {
    /// This mutation adds a new feed-forward connection between two nodes not
    /// already joined in the feed-forward set, subject to acyclicity: the
    /// genome maintains the hidden sequence as a topological order, and only
    /// order-respecting pairs are eligible. The scan begins at a random offset
    /// into the cyclic start sequence, examines every start, and takes the
    /// first legal pair; when no legal pair exists anywhere it reports the
    /// typed infeasibility outcome and leaves the genome unchanged.
    pub fn add_connection(genome: &mut Genome, rng: &mut rand::rngs::SmallRng) -> (r:
        MutationResult)
        requires
            old(genome).wf(),
        ensures
            final(genome).wf(),
            r is Err <==> (forall|si: int|
                0 <= si < old(genome).ff_start_nodes().len() ==> !ff_start_feasible(
                    *old(genome),
                    si,
                )),
            r is Err ==> *final(genome) == *old(genome),
            r is Err ==> r == Err::<(), MutationError>(MutationError::CouldNotAddConnection),
            r is Ok ==> ff_added(*old(genome), *final(genome)),
    {
        let ni = genome.inputs.len();
        let nh = genome.hidden.len();
        let no = genome.outputs.len();
        proof {
            assert(genome.nodes().len() == ni + nh + no);
            assert(genome.ff_start_nodes().len() == ni + nh);
            assert(genome.end_nodes().len() == nh + no);
        }
        let span = ni + nh;
        let ne = nh + no;
        if span == 0 {
            return Err(MutationError::CouldNotAddConnection);
        }
        let k = below(rng, span as u64) as usize;
        let mut c: usize = 0;
        while c < span
            invariant
                *genome == *old(genome),
                genome.wf(),
                c <= span,
                k < span,
                span == ni + nh,
                ne == nh + no,
                ni == genome.inputs@.len(),
                nh == genome.hidden@.len(),
                genome.ff_start_nodes().len() == span,
                genome.end_nodes().len() == ne,
                forall|p: int|
                    0 <= p < span && (k <= p < k + c || p + span < k + c)
                        ==> !ff_start_feasible(*genome, p),
            decreases span - c,
        {
            let pos = if k + c < span {
                k + c
            } else {
                k + c - span
            };
            let start = if pos < ni {
                genome.inputs[pos]
            } else {
                genome.hidden[pos - ni]
            };
            proof {
                assert(start == genome.ff_start_nodes()[pos as int]);
            }
            let mut j: usize = 0;
            while j < ne
                invariant
                    *genome == *old(genome),
                    genome.wf(),
                    j <= ne,
                    ni == genome.inputs@.len(),
                    nh == genome.hidden@.len(),
                    ne == genome.end_nodes().len(),
                    pos < genome.ff_start_nodes().len(),
                    start == genome.ff_start_nodes()[pos as int],
                    forall|q: int| 0 <= q < j ==> !ff_candidate(*genome, pos as int, q),
                decreases ne - j,
            {
                let order_ok = !(pos >= ni && j < nh && pos - ni >= j);
                if order_ok {
                    let end = genome.end_node_at(j);
                    if !crate::genome::contains_pair_exec(&genome.feed_forward, start.id, end.id) {
                        let weight = Connection::weight_perturbation(0, WEIGHT_SCALE, rng);
                        let conn = Connection::new(start.id, weight, end.id);
                        let ghost before = *genome;
                        proof {
                            assert(ff_candidate(before, pos as int, j as int));
                            lemma_new_ff_edge_ok(before, pos as int, j as int);
                        }
                        genome.feed_forward.push(conn);
                        proof {
                            assert(genome.feed_forward@.last() == conn);
                            assert forall|a: int, b: int|
                                0 <= a < b < genome.feed_forward@.len() implies !(
                            (#[trigger] genome.feed_forward@[a]).input
                                == (#[trigger] genome.feed_forward@[b]).input
                                && genome.feed_forward@[a].output
                                == genome.feed_forward@[b].output) by {
                                if b == genome.feed_forward@.len() - 1 {
                                    assert(genome.feed_forward@[a] == before.feed_forward@[a]);
                                }
                            }
                            assert(genome.nodes() == before.nodes());
                            assert forall|t: int|
                                0 <= t < genome.feed_forward@.len() implies genome.ff_edge_ok(
                                #[trigger] genome.feed_forward@[t],
                            ) by {
                                if t < genome.feed_forward@.len() - 1 {
                                    assert(before.ff_edge_ok(before.feed_forward@[t]));
                                }
                            }
                            assert forall|t: int|
                                0 <= t < genome.recurrent@.len() implies genome.rec_edge_ok(
                                #[trigger] genome.recurrent@[t],
                            ) by {
                                assert(before.rec_edge_ok(before.recurrent@[t]));
                            }
                            assert(genome.wf());
                            assert(ff_added(before, *genome));
                            assert(ff_candidate(*old(genome), pos as int, j as int));
                            assert(ff_start_feasible(*old(genome), pos as int));
                        }
                        return Ok(());
                    }
                }
                j = j + 1;
            }
            proof {
                assert(!ff_start_feasible(*genome, pos as int));
                assert(k + c < span ==> pos == k + c);
                assert(k + c >= span ==> pos + span == k + c);
            }
            c = c + 1;
        }
        proof {
            assert forall|si: int| 0 <= si < span implies !ff_start_feasible(*genome, si) by {
                if si >= k {
                    assert(k <= si < k + span);
                } else {
                    assert(si + span < k + span);
                }
            }
        }
        Err(MutationError::CouldNotAddConnection)
    }
}

/// A candidate position pair of a well-formed genome names an edge that is
/// legal to insert: both memberships hold, the endpoints differ, and the
/// hidden order is respected.
proof fn lemma_new_ff_edge_ok(genome: Genome, si: int, ej: int)
    requires
        genome.wf(),
        0 <= si < genome.ff_start_nodes().len(),
        0 <= ej < genome.end_nodes().len(),
        ff_candidate(genome, si, ej),
    ensures
        genome.ff_start_nodes()[si].id != genome.end_nodes()[ej].id,
        crate::genome::contains_node_id(genome.inputs@, genome.ff_start_nodes()[si].id)
            || crate::genome::contains_node_id(genome.hidden@, genome.ff_start_nodes()[si].id),
        crate::genome::contains_node_id(genome.hidden@, genome.end_nodes()[ej].id)
            || crate::genome::contains_node_id(genome.outputs@, genome.end_nodes()[ej].id),
        genome.hidden_before(genome.ff_start_nodes()[si].id, genome.end_nodes()[ej].id),
{
    let ni = genome.inputs@.len() as int;
    let nh = genome.hidden@.len() as int;
    let s = genome.ff_start_nodes()[si];
    let e = genome.end_nodes()[ej];
    if si < ni {
        assert(genome.nodes()[si] == s);
        assert(genome.ff_start_nodes()[si] == genome.inputs@[si]);
    } else {
        assert(genome.nodes()[si] == genome.hidden@[si - ni]);
        assert(genome.ff_start_nodes()[si] == genome.hidden@[si - ni]);
    }
    if ej < nh {
        assert(genome.nodes()[ni + ej] == genome.hidden@[ej]);
        assert(genome.end_nodes()[ej] == genome.hidden@[ej]);
    } else {
        assert(genome.nodes()[ni + nh + (ej - nh)] == genome.outputs@[ej - nh]);
        assert(genome.end_nodes()[ej] == genome.outputs@[ej - nh]);
    }
    // the end node's global position is past the inputs in either case, so
    // the two global positions differ unless both name the same hidden index
    let ps = si;
    let pe = ni + ej;
    assert(genome.nodes()[ps] == s);
    assert(genome.nodes()[pe] == e);
    if ps != pe {
        if ps < pe {
            assert(genome.nodes()[ps].id != genome.nodes()[pe].id);
        } else {
            assert(genome.nodes()[pe].id != genome.nodes()[ps].id);
        }
    } else {
        // same global position means both hidden at the same index, which the
        // order condition of the candidate excludes
        assert(si >= ni && ej < nh && si - ni == ej);
        assert(false);
    }
    assert(s.id != e.id);
    // memberships
    if si < ni {
        assert(crate::genome::contains_node_id(genome.inputs@, s.id));
    } else {
        assert(crate::genome::contains_node_id(genome.hidden@, s.id));
    }
    if ej < nh {
        assert(crate::genome::contains_node_id(genome.hidden@, e.id));
    } else {
        assert(crate::genome::contains_node_id(genome.outputs@, e.id));
    }
    // hidden order: wherever both ids occur among the hidden nodes, the
    // occurrences are at the unique witnessed indices
    assert forall|x: int, y: int|
        0 <= x < genome.hidden@.len() && 0 <= y < genome.hidden@.len()
            && (#[trigger] genome.hidden@[x]).id == s.id && (#[trigger] genome.hidden@[y]).id
            == e.id implies x < y by {
        assert(genome.nodes()[ni + x] == genome.hidden@[x]);
        assert(genome.nodes()[ni + y] == genome.hidden@[y]);
        if si < ni {
            assert(genome.nodes()[si].id == genome.nodes()[ni + x].id);
            assert(si != ni + x);
            lemma_distinct_ids(genome, si, ni + x);
            assert(false);
        } else {
            if x != si - ni {
                lemma_distinct_ids(genome, ni + x, si);
                assert(false);
            }
        }
        if ej < nh {
            if y != ej {
                lemma_distinct_ids(genome, ni + y, ni + ej);
                assert(false);
            }
        } else {
            lemma_distinct_ids(genome, ni + y, ni + nh + (ej - nh));
            assert(false);
        }
    }
}

/// Two distinct positions of the global node sequence carry distinct ids.
proof fn lemma_distinct_ids(genome: Genome, a: int, b: int)
    requires
        genome.wf(),
        0 <= a < genome.nodes().len(),
        0 <= b < genome.nodes().len(),
        a != b,
    ensures
        genome.nodes()[a].id != genome.nodes()[b].id,
{
    if a < b {
        assert(genome.nodes()[a].id != genome.nodes()[b].id);
    } else {
        assert(genome.nodes()[b].id != genome.nodes()[a].id);
    }
}

} // verus!
