use vstd::prelude::*;

use crate::genes::activations::Activation;
use crate::genes::nodes::Node;
use crate::genome::Genome;
use crate::mutations::Mutations;
use crate::rng::below;

verus! {

/// One hidden node had its activation reset to an entry of the pool;
/// everything else of the genome is as it was. A draw of the node's current
/// activation counts: the update then carries the same value.
pub open spec fn activation_changed(before: Genome, after: Genome, pool: Seq<Activation>) -> bool {
    exists|i: int|
        0 <= i < before.hidden@.len() && pool.contains(after.hidden@[i].activation)
            && after.hidden@ == before.hidden@.update(
            i,
            (Node { activation: after.hidden@[i].activation, ..before.hidden@[i] }),
        )
}

impl Mutations {
    /// Select one hidden node uniformly and reset its activation to a
    /// uniformly chosen entry of `activation_pool`. With no hidden node, or an
    /// empty pool, there is nothing to change and the genome is left as it is.
    pub fn change_activation(
        activation_pool: &Vec<Activation>,
        genome: &mut Genome,
        rng: &mut rand::rngs::SmallRng,
    )
        requires
            old(genome).wf(),
        ensures
            final(genome).wf(),
            final(genome).inputs@ == old(genome).inputs@,
            final(genome).outputs@ == old(genome).outputs@,
            final(genome).feed_forward@ == old(genome).feed_forward@,
            final(genome).recurrent@ == old(genome).recurrent@,
            old(genome).hidden@.len() == 0 || activation_pool@.len() == 0 ==> *final(genome)
                == *old(genome),
            old(genome).hidden@.len() > 0 && activation_pool@.len() > 0 ==> activation_changed(
                *old(genome),
                *final(genome),
                activation_pool@,
            ),
    {
        if genome.hidden.len() == 0 || activation_pool.len() == 0 {
            return ;
        }
        let i = below(rng, genome.hidden.len() as u64) as usize;
        let chosen = activation_pool[below(rng, activation_pool.len() as u64) as usize];
        let mut node = genome.hidden[i];
        node.activation = chosen;
        let ghost prev = *genome;
        genome.hidden[i] = node;
        proof {
            assert(activation_pool@.contains(chosen));
            lemma_same_node_ids_wf(prev, *genome);
            assert(genome.hidden@ == prev.hidden@.update(
                i as int,
                (Node { activation: chosen, ..prev.hidden@[i as int] }),
            ));
            assert(activation_changed(prev, *genome, activation_pool@));
        }
    }
}

/// A genome whose hidden nodes changed only in their activations (ids and
/// roles elementwise unchanged) keeps its invariant.
proof fn lemma_same_node_ids_wf(before: Genome, after: Genome)
    requires
        before.wf(),
        after.inputs@ == before.inputs@,
        after.outputs@ == before.outputs@,
        after.feed_forward@ == before.feed_forward@,
        after.recurrent@ == before.recurrent@,
        after.hidden@.len() == before.hidden@.len(),
        forall|t: int|
            0 <= t < before.hidden@.len() ==> (#[trigger] after.hidden@[t]).id
                == before.hidden@[t].id && after.hidden@[t].role == before.hidden@[t].role,
    ensures
        after.wf(),
{
    let n1 = before.nodes();
    let n2 = after.nodes();
    assert(n2.len() == n1.len());
    assert forall|t: int| 0 <= t < n1.len() implies (#[trigger] n2[t]).id == n1[t].id by {
        if t < before.inputs@.len() {
        } else if t < before.inputs@.len() + before.hidden@.len() {
            assert(n1[t] == before.hidden@[t - before.inputs@.len()]);
            assert(n2[t] == after.hidden@[t - before.inputs@.len()]);
        } else {
        }
    }
    assert forall|a: int, b: int| 0 <= a < b < n2.len() implies (#[trigger] n2[a]).id
        != (#[trigger] n2[b]).id by {
        assert(n1[a].id != n1[b].id);
    }
    assert forall|t: int| 0 <= t < before.end_nodes().len() implies (#[trigger] after.end_nodes()[
        t
    ]).id == before.end_nodes()[t].id by {
        if t < before.hidden@.len() {
            assert(before.end_nodes()[t] == before.hidden@[t]);
            assert(after.end_nodes()[t] == after.hidden@[t]);
        } else {
            assert(before.end_nodes()[t] == before.outputs@[t - before.hidden@.len()]);
            assert(after.end_nodes()[t] == after.outputs@[t - before.hidden@.len()]);
        }
    }
    assert forall|k: int| 0 <= k < after.feed_forward@.len() implies after.ff_edge_ok(
        #[trigger] after.feed_forward@[k],
    ) by {
        let c = after.feed_forward@[k];
        assert(before.ff_edge_ok(c));
        lemma_same_ids_contains_carry(before.hidden@, after.hidden@, c.input);
        lemma_same_ids_contains_carry(before.hidden@, after.hidden@, c.output);
        assert forall|x: int, y: int|
            0 <= x < after.hidden@.len() && 0 <= y < after.hidden@.len()
                && (#[trigger] after.hidden@[x]).id == c.input && (#[trigger] after.hidden@[y]).id
                == c.output implies x < y by {
            assert(before.hidden@[x].id == c.input && before.hidden@[y].id == c.output);
        }
    }
    assert forall|k: int| 0 <= k < after.recurrent@.len() implies after.rec_edge_ok(
        #[trigger] after.recurrent@[k],
    ) by {
        let c = after.recurrent@[k];
        assert(before.rec_edge_ok(c));
        lemma_same_ids_contains_carry(before.nodes(), after.nodes(), c.input);
        lemma_same_ids_contains_carry(before.end_nodes(), after.end_nodes(), c.output);
    }
}

/// Membership of a node id carries over to a node sequence with the same ids.
proof fn lemma_same_ids_contains_carry(s1: Seq<Node>, s2: Seq<Node>, id: crate::genes::ids::Id)
    requires
        s1.len() == s2.len(),
        forall|t: int| 0 <= t < s1.len() ==> (#[trigger] s2[t]).id == s1[t].id,
    ensures
        crate::genome::contains_node_id(s1, id) == crate::genome::contains_node_id(s2, id),
{
    if crate::genome::contains_node_id(s1, id) {
        let w = choose|w: int| 0 <= w < s1.len() && s1[w].id == id;
        assert(s2[w].id == id);
    }
    if crate::genome::contains_node_id(s2, id) {
        let w = choose|w: int| 0 <= w < s2.len() && s2[w].id == id;
        assert(s1[w].id == id);
    }
}

} // verus!
