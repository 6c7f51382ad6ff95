use vstd::prelude::*;

use crate::genes::connections::Connection;
use crate::genes::ids::Id;
use crate::genes::nodes::Node;
use crate::genome::{contains_node_id, Genome};
use crate::mutations::{MutationError, MutationResult, Mutations};
use crate::rng::below;

verus! {

/// The connections of `conns` that do not touch the node `id` at either
/// endpoint, in their original order.
pub open spec fn without_endpoint(conns: Seq<Connection>, id: Id) -> Seq<Connection>
    decreases conns.len(),
{
    if conns.len() == 0 {
        Seq::empty()
    } else {
        let rest = without_endpoint(conns.drop_last(), id);
        if conns.last().input == id || conns.last().output == id {
            rest
        } else {
            rest.push(conns.last())
        }
    }
}

/// Every connection the filter keeps stems from the original sequence and
/// touches the removed node at neither endpoint.
proof fn lemma_without_endpoint_membership(conns: Seq<Connection>, id: Id)
    ensures
        without_endpoint(conns, id).len() <= conns.len(),
        forall|t: int|
            0 <= t < without_endpoint(conns, id).len() ==> conns.contains(
                #[trigger] without_endpoint(conns, id)[t],
            ) && without_endpoint(conns, id)[t].input != id && without_endpoint(conns, id)[t].output
                != id,
    decreases conns.len(),
{
    if conns.len() > 0 {
        lemma_without_endpoint_membership(conns.drop_last(), id);
        assert forall|t: int|
            0 <= t < without_endpoint(conns, id).len() implies conns.contains(
            #[trigger] without_endpoint(conns, id)[t],
        ) && without_endpoint(conns, id)[t].input != id && without_endpoint(conns, id)[t].output
            != id by {
            let w = without_endpoint(conns, id);
            let rest = without_endpoint(conns.drop_last(), id);
            if t < rest.len() {
                assert(w[t] == rest[t]);
                let u = choose|u: int|
                    0 <= u < conns.drop_last().len() && conns.drop_last()[u] == rest[t];
                assert(conns[u] == rest[t]);
            } else {
                assert(w[t] == conns.last());
                assert(conns[conns.len() - 1] == conns.last());
            }
        }
    }
}

/// The filter keeps identity-uniqueness.
proof fn lemma_without_endpoint_distinct(conns: Seq<Connection>, id: Id)
    requires
        crate::genome::pairs_distinct(conns),
    ensures
        crate::genome::pairs_distinct(without_endpoint(conns, id)),
    decreases conns.len(),
{
    if conns.len() > 0 {
        assert(crate::genome::pairs_distinct(conns.drop_last()));
        lemma_without_endpoint_distinct(conns.drop_last(), id);
        lemma_without_endpoint_membership(conns.drop_last(), id);
        let w = without_endpoint(conns, id);
        let rest = without_endpoint(conns.drop_last(), id);
        assert forall|a: int, b: int|
            0 <= a < b < w.len() implies !((#[trigger] w[a]).input == (#[trigger] w[b]).input
            && w[a].output == w[b].output) by {
            if b < rest.len() {
                assert(w[a] == rest[a] && w[b] == rest[b]);
            } else if b == rest.len() && w.len() > rest.len() {
                assert(w[b] == conns.last());
                assert(w[a] == rest[a]);
                let u = choose|u: int|
                    0 <= u < conns.drop_last().len() && conns.drop_last()[u] == rest[a];
                assert(conns[u] == w[a]);
                assert(!(conns[u].input == conns[conns.len() - 1].input && conns[u].output
                    == conns[conns.len() - 1].output));
            }
        }
    }
}

/// Keep only the connections that touch `id` at neither endpoint.
fn retain_without_endpoint(conns: &mut Vec<Connection>, id: Id)
    ensures
        final(conns)@ == without_endpoint(old(conns)@, id),
{
    let mut kept: Vec<Connection> = Vec::new();
    let mut t: usize = 0;
    while t < conns.len()
        invariant
            *conns == *old(conns),
            t <= conns@.len(),
            kept@ == without_endpoint(conns@.subrange(0, t as int), id),
        decreases conns@.len() - t,
    {
        let c = conns[t];
        proof {
            let prefix = conns@.subrange(0, t as int);
            let next = conns@.subrange(0, t + 1 as int);
            assert(next.drop_last() =~= prefix);
            assert(next.last() == c);
        }
        if !(c.input == id || c.output == id) {
            kept.push(c);
        }
        t = t + 1;
    }
    proof {
        assert(conns@.subrange(0, conns@.len() as int) =~= conns@);
    }
    *conns = kept;
}

/// Exactly one hidden node was removed, together with every connection that
/// touched it; inputs and outputs are as they were.
pub open spec fn node_removed(before: Genome, after: Genome) -> bool {
    &&& after.inputs@ == before.inputs@
    &&& after.outputs@ == before.outputs@
    &&& exists|i: int|
        0 <= i < before.hidden@.len() && after.hidden@ == before.hidden@.remove(i)
            && after.feed_forward@ == without_endpoint(
            before.feed_forward@,
            before.hidden@[i].id,
        ) && after.recurrent@ == without_endpoint(before.recurrent@, before.hidden@[i].id)
}

impl Mutations {
    /// Remove one uniformly selected hidden node together with every
    /// connection, feed-forward or recurrent, that touches it at either
    /// endpoint (input and output nodes are never removable). With no hidden
    /// node the operator reports the typed infeasibility outcome and leaves
    /// the genome unchanged.
    pub fn remove_node(genome: &mut Genome, rng: &mut rand::rngs::SmallRng) -> (r: MutationResult)
        requires
            old(genome).wf(),
        ensures
            final(genome).wf(),
            r is Err <==> old(genome).hidden@.len() == 0,
            r is Err ==> *final(genome) == *old(genome),
            r is Err ==> r == Err::<(), MutationError>(MutationError::CouldNotRemoveNode),
            final(genome).inputs@ == old(genome).inputs@,
            final(genome).outputs@ == old(genome).outputs@,
            r is Ok ==> node_removed(*old(genome), *final(genome)),
    {
        if genome.hidden.len() == 0 {
            return Err(MutationError::CouldNotRemoveNode);
        }
        let i = below(rng, genome.hidden.len() as u64) as usize;
        let removed = genome.hidden[i];
        let ghost before = *genome;
        genome.hidden.remove(i);
        retain_without_endpoint(&mut genome.feed_forward, removed.id);
        retain_without_endpoint(&mut genome.recurrent, removed.id);
        proof {
            lemma_wf_after_node_remove(before, *genome, i as int);
        }
        Ok(())
    }
}

/// Membership of a node id survives the removal of a node with another id.
proof fn lemma_contains_node_id_remove(s: Seq<Node>, i: int, x: Id)
    requires
        0 <= i < s.len(),
        contains_node_id(s, x),
        s[i].id != x,
    ensures
        contains_node_id(s.remove(i), x),
{
    let w = choose|w: int| 0 <= w < s.len() && s[w].id == x;
    if w < i {
        assert(s.remove(i)[w].id == x);
    } else {
        assert(s.remove(i)[w - 1].id == x);
    }
}

/// Removing one hidden node and filtering both connection sets by its id
/// keeps the genome well-formed.
proof fn lemma_wf_after_node_remove(before: Genome, after: Genome, i: int)
    requires
        before.wf(),
        0 <= i < before.hidden@.len(),
        after.inputs@ == before.inputs@,
        after.outputs@ == before.outputs@,
        after.hidden@ == before.hidden@.remove(i),
        after.feed_forward@ == without_endpoint(before.feed_forward@, before.hidden@[i].id),
        after.recurrent@ == without_endpoint(before.recurrent@, before.hidden@[i].id),
    ensures
        after.wf(),
{
    let id = before.hidden@[i].id;
    let ni = before.inputs@.len() as int;
    let gi = ni + i;
    assert(before.nodes()[gi] == before.hidden@[i]);
    assert(after.nodes() =~= before.nodes().remove(gi));
    assert(after.end_nodes() =~= before.end_nodes().remove(i));
    lemma_without_endpoint_membership(before.feed_forward@, id);
    lemma_without_endpoint_membership(before.recurrent@, id);
    lemma_without_endpoint_distinct(before.feed_forward@, id);
    lemma_without_endpoint_distinct(before.recurrent@, id);
    // node ids stay distinct and roles stay true under removal
    assert forall|a: int, b: int| 0 <= a < b < after.nodes().len() implies (
    #[trigger] after.nodes()[a]).id != (#[trigger] after.nodes()[b]).id by {
        let a0 = if a < gi {
            a
        } else {
            a + 1
        };
        let b0 = if b < gi {
            b
        } else {
            b + 1
        };
        assert(after.nodes()[a] == before.nodes()[a0]);
        assert(after.nodes()[b] == before.nodes()[b0]);
    }
    assert forall|t: int| 0 <= t < after.hidden@.len() implies (#[trigger] after.hidden@[t]).role
        == crate::genes::nodes::Role::Hidden by {
        let t0 = if t < i {
            t
        } else {
            t + 1
        };
        assert(after.hidden@[t] == before.hidden@[t0]);
    }
    // every surviving feed-forward edge is still legal
    assert forall|k: int| 0 <= k < after.feed_forward@.len() implies after.ff_edge_ok(
        #[trigger] after.feed_forward@[k],
    ) by {
        let c = after.feed_forward@[k];
        assert(without_endpoint(before.feed_forward@, id)[k] == c);
        let u = choose|u: int|
            0 <= u < before.feed_forward@.len() && before.feed_forward@[u] == c;
        assert(before.ff_edge_ok(before.feed_forward@[u]));
        assert(before.ff_edge_ok(c));
        if contains_node_id(before.hidden@, c.input) {
            lemma_contains_node_id_remove(before.hidden@, i, c.input);
        }
        if contains_node_id(before.hidden@, c.output) {
            lemma_contains_node_id_remove(before.hidden@, i, c.output);
        }
        assert forall|x: int, y: int|
            0 <= x < after.hidden@.len() && 0 <= y < after.hidden@.len()
                && (#[trigger] after.hidden@[x]).id == c.input && (#[trigger] after.hidden@[y]).id
                == c.output implies x < y by {
            let x0 = if x < i {
                x
            } else {
                x + 1
            };
            let y0 = if y < i {
                y
            } else {
                y + 1
            };
            assert(after.hidden@[x] == before.hidden@[x0]);
            assert(after.hidden@[y] == before.hidden@[y0]);
            assert(before.hidden@[x0].id == c.input && before.hidden@[y0].id == c.output);
        }
    }
    // every surviving recurrent edge is still legal
    assert forall|k: int| 0 <= k < after.recurrent@.len() implies after.rec_edge_ok(
        #[trigger] after.recurrent@[k],
    ) by {
        let c = after.recurrent@[k];
        assert(without_endpoint(before.recurrent@, id)[k] == c);
        let u = choose|u: int| 0 <= u < before.recurrent@.len() && before.recurrent@[u] == c;
        assert(before.rec_edge_ok(before.recurrent@[u]));
        assert(before.rec_edge_ok(c));
        lemma_contains_node_id_remove(before.nodes(), gi, c.input);
        lemma_contains_node_id_remove(before.end_nodes(), i, c.output);
    }
}

} // verus!
