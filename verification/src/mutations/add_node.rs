use vstd::prelude::*;

use crate::genes::activations::Activation;
use crate::genes::connections::{sea_hash_of, Connection, WEIGHT_SCALE};
use crate::genes::ids::Id;
use crate::genes::nodes::{Node, Role};
use crate::genome::{
    contains_node_id, lemma_contains_node_id_insert, lemma_hidden_id_unique, lemma_part_to_nodes,
    lemma_wf_after_conn_remove, lemma_wf_after_hidden_insert, Genome,
};
use crate::mutations::Mutations;
use crate::rng::below;

verus! {

/// The split that `add_node` performs, witnessed by the split index `i` and
/// the hidden insertion position `p`: the chosen feed-forward connection is
/// removed and replaced by predecessor-to-new-node (full weight) and
/// new-node-to-successor (the removed connection's weight); the new hidden
/// node carries an activation from the pool and an id derived from the
/// removed gene by its id scheme.
pub open spec fn node_split_at(
    before: Genome,
    after: Genome,
    pool: Seq<Activation>,
    i: int,
    p: int,
) -> bool {
    let c = before.feed_forward@[i];
    let fresh = after.hidden@[p];
    &&& 0 <= i < before.feed_forward@.len()
    &&& 0 <= p < after.hidden@.len()
    &&& after.inputs@ == before.inputs@
    &&& after.outputs@ == before.outputs@
    &&& after.recurrent@ == before.recurrent@
    &&& after.hidden@ == before.hidden@.insert(p, fresh)
    &&& fresh.role == Role::Hidden
    &&& pool.contains(fresh.activation)
    &&& !contains_node_id(before.nodes(), fresh.id)
    &&& after.feed_forward@ == before.feed_forward@.remove(i).push(
        (Connection { input: c.input, output: fresh.id, weight: WEIGHT_SCALE, id_counter: 0 }),
    ).push((Connection { input: fresh.id, output: c.output, weight: c.weight, id_counter: 0 }))
    &&& (fresh.id.0 == sea_hash_of(c.input.0, c.output.0, c.id_counter) || (contains_node_id(
        before.nodes(),
        (Id { 0: sea_hash_of(c.input.0, c.output.0, c.id_counter) }),
    ) && fresh.id.0 == sea_hash_of(c.input.0, c.output.0, (c.id_counter + 1) as u64)))
}

/// Some feed-forward connection of `before` was split as `node_split_at`
/// describes.
pub open spec fn node_split(before: Genome, after: Genome, pool: Seq<Activation>) -> bool {
    exists|i: int, p: int| #[trigger] node_split_at(before, after, pool, i, p)
}

/// The cases in which `add_node` legitimately leaves the genome unchanged:
/// nothing to split or to draw from, a genome at its size limit, or a chosen
/// gene whose id derivation is exhausted or collides twice with existing node
/// ids.
pub open spec fn split_blocked(before: Genome, pool: Seq<Activation>) -> bool {
    ||| before.feed_forward@.len() == 0
    ||| pool.len() == 0
    ||| before.nodes().len() >= usize::MAX / 2
    ||| exists|i: int|
        0 <= i < before.feed_forward@.len() && ((#[trigger] before.feed_forward@[i]).id_counter
            >= u64::MAX - 1 || (contains_node_id(
            before.nodes(),
            (Id {
                0: sea_hash_of(
                    before.feed_forward@[i].input.0,
                    before.feed_forward@[i].output.0,
                    before.feed_forward@[i].id_counter,
                ),
            }),
        ) && contains_node_id(
            before.nodes(),
            (Id {
                0: sea_hash_of(
                    before.feed_forward@[i].input.0,
                    before.feed_forward@[i].output.0,
                    (before.feed_forward@[i].id_counter + 1) as u64,
                ),
            }),
        )))
}

impl Mutations {
    /// Split one uniformly chosen feed-forward connection: remove it, insert
    /// a new hidden node whose id is derived from the removed gene via
    /// `next_id` (invoked twice, so that a first collision with an existing
    /// node id can fall back on the second derivation), and join predecessor
    /// to the new node at full weight and the new node to the successor at
    /// the removed connection's weight. With no feed-forward connection or an
    /// empty pool there is nothing to split; in the negligible cases that
    /// both derived ids collide, that the gene's counter is exhausted, or
    /// that the genome is at its size limit, the genome is likewise left
    /// unchanged.
    pub fn add_node(
        activation_pool: &Vec<Activation>,
        genome: &mut Genome,
        rng: &mut rand::rngs::SmallRng,
    )
        requires
            old(genome).wf(),
        ensures
            final(genome).wf(),
            old(genome).feed_forward@.len() == 0 || activation_pool@.len() == 0 ==> *final(genome)
                == *old(genome),
            *final(genome) == *old(genome) || node_split(
                *old(genome),
                *final(genome),
                activation_pool@,
            ),
            *final(genome) == *old(genome) ==> split_blocked(*old(genome), activation_pool@),
    {
        if genome.feed_forward.len() == 0 || activation_pool.len() == 0 {
            return ;
        }
        let total = genome.inputs.len() + genome.hidden.len() + genome.outputs.len();
        if total >= usize::MAX / 2 {
            proof {
                assert(genome.nodes().len() == total);
            }
            return ;
        }
        let i = below(rng, genome.feed_forward.len() as u64) as usize;
        let c = genome.feed_forward[i];
        if c.id_counter >= u64::MAX - 1 {
            proof {
                assert(genome.feed_forward@[i as int] == c);
            }
            return ;
        }
        let mut probe = c;
        let id1 = probe.next_id();
        let id2 = probe.next_id();
        let fresh_id = if !genome.has_node_id(id1) {
            id1
        } else if !genome.has_node_id(id2) {
            id2
        } else {
            proof {
                assert(genome.feed_forward@[i as int] == c);
                assert(id1 == (Id { 0: sea_hash_of(c.input.0, c.output.0, c.id_counter) }));
                assert(id2 == (Id {
                    0: sea_hash_of(c.input.0, c.output.0, (c.id_counter + 1) as u64),
                }));
                assert(split_blocked(*genome, activation_pool@));
            }
            return ;
        };
        let act = activation_pool[below(rng, activation_pool.len() as u64) as usize];
        let p = genome.hidden_index_of(c.output);
        let node = Node::new(fresh_id, Role::Hidden, act);
        let ghost before = *genome;
        proof {
            assert(activation_pool@.contains(act));
            assert(before.ff_edge_ok(c));
        }
        genome.hidden.insert(p, node);
        proof {
            lemma_wf_after_hidden_insert(before, *genome, p as int, node);
        }
        let ghost mid1 = *genome;
        genome.feed_forward.remove(i);
        proof {
            lemma_wf_after_conn_remove(mid1, *genome, i as int, true);
            // no connection of the old genome touches the fresh id
            assert forall|t: int|
                0 <= t < before.feed_forward@.len() implies (#[trigger] before.feed_forward@[t]).input
                != fresh_id && before.feed_forward@[t].output != fresh_id by {
                assert(before.ff_edge_ok(before.feed_forward@[t]));
                lemma_part_to_nodes(before, before.feed_forward@[t].input);
                lemma_part_to_nodes(before, before.feed_forward@[t].output);
            }
        }
        let ghost mid2 = *genome;
        let joins_in = Connection::new(c.input, WEIGHT_SCALE, fresh_id);
        genome.feed_forward.push(joins_in);
        proof {
            lemma_split_first_push(before, mid2, *genome, i as int, p as int, c, node);
        }
        let ghost mid3 = *genome;
        let joins_out = Connection::new(fresh_id, c.weight, c.output);
        genome.feed_forward.push(joins_out);
        proof {
            lemma_split_second_push(before, mid3, *genome, i as int, p as int, c, node);
            assert(id1 == (Id { 0: sea_hash_of(c.input.0, c.output.0, c.id_counter) }));
            assert(id2.0 == sea_hash_of(c.input.0, c.output.0, (c.id_counter + 1) as u64));
            assert(genome.hidden@.len() == before.hidden@.len() + 1);
            assert(genome.hidden@[p as int] == node);
            assert(genome.feed_forward@ == before.feed_forward@.remove(i as int).push(
                joins_in,
            ).push(joins_out));
            assert(node_split_at(before, *genome, activation_pool@, i as int, p as int));
        }
    }
}

/// After removing the split connection, pushing the predecessor-to-new-node
/// edge keeps the genome well-formed.
proof fn lemma_split_first_push(
    before: Genome,
    mid: Genome,
    after: Genome,
    i: int,
    p: int,
    c: Connection,
    fresh: Node,
)
    requires
        before.wf(),
        mid.wf(),
        0 <= i < before.feed_forward@.len(),
        c == before.feed_forward@[i],
        0 <= p <= before.hidden@.len(),
        p < before.hidden@.len() ==> before.hidden@[p].id == c.output,
        p == before.hidden@.len() ==> !contains_node_id(before.hidden@, c.output),
        fresh.role == Role::Hidden,
        !contains_node_id(before.nodes(), fresh.id),
        mid.inputs@ == before.inputs@,
        mid.outputs@ == before.outputs@,
        mid.recurrent@ == before.recurrent@,
        mid.hidden@ == before.hidden@.insert(p, fresh),
        mid.feed_forward@ == before.feed_forward@.remove(i),
        after == (Genome {
            feed_forward: after.feed_forward,
            ..mid
        }),
        after.feed_forward@ == mid.feed_forward@.push(
            (Connection { input: c.input, output: fresh.id, weight: WEIGHT_SCALE, id_counter: 0 }),
        ),
        forall|t: int|
            0 <= t < before.feed_forward@.len() ==> (#[trigger] before.feed_forward@[t]).input
                != fresh.id && before.feed_forward@[t].output != fresh.id,
    ensures
        after.wf(),
{
    let added = Connection { input: c.input, output: fresh.id, weight: WEIGHT_SCALE, id_counter: 0 };
    assert(before.ff_edge_ok(c));
    assert(c.input != fresh.id);
    // identity-uniqueness: the new pair's output is the fresh id, which no
    // old connection touches
    assert forall|a: int, b: int|
        0 <= a < b < after.feed_forward@.len() implies !((#[trigger] after.feed_forward@[a]).input
        == (#[trigger] after.feed_forward@[b]).input && after.feed_forward@[a].output
        == after.feed_forward@[b].output) by {
        if b == after.feed_forward@.len() - 1 {
            assert(after.feed_forward@[a] == mid.feed_forward@[a]);
            let a0 = if a < i {
                a
            } else {
                a + 1
            };
            assert(mid.feed_forward@[a] == before.feed_forward@[a0]);
            assert(before.feed_forward@[a0].output != fresh.id);
        } else {
            assert(after.feed_forward@[a] == mid.feed_forward@[a]);
            assert(after.feed_forward@[b] == mid.feed_forward@[b]);
        }
    }
    // the new edge is legal
    assert(contains_node_id(before.inputs@, c.input) || contains_node_id(
        before.hidden@,
        c.input,
    ));
    if contains_node_id(before.hidden@, c.input) {
        lemma_contains_node_id_insert(before.hidden@, p, fresh, c.input);
    }
    assert(mid.hidden@[p] == fresh);
    assert(contains_node_id(mid.hidden@, fresh.id));
    assert forall|x: int, y: int|
        0 <= x < mid.hidden@.len() && 0 <= y < mid.hidden@.len() && (#[trigger] mid.hidden@[x]).id
            == added.input && (#[trigger] mid.hidden@[y]).id == added.output implies x < y by {
        // the fresh id occurs only at position p
        if y != p {
            let y0 = if y < p {
                y
            } else {
                y - 1
            };
            assert(mid.hidden@[y] == before.hidden@[y0]);
            lemma_part_to_nodes(before, before.hidden@[y0].id);
            assert(false);
        }
        assert(x != p);
        let x0 = if x < p {
            x
        } else {
            x - 1
        };
        assert(mid.hidden@[x] == before.hidden@[x0]);
        assert(before.hidden@[x0].id == c.input);
        if p < before.hidden@.len() {
            // the split connection ends at the hidden node at position p, and
            // its start stands before it in the topological order
            assert(before.hidden@[p].id == c.output);
            assert(x0 < p);
        } else {
            assert(x0 < p);
        }
        assert(x < p);
    }
    assert forall|k: int| 0 <= k < after.feed_forward@.len() implies after.ff_edge_ok(
        #[trigger] after.feed_forward@[k],
    ) by {
        if k < after.feed_forward@.len() - 1 {
            assert(after.feed_forward@[k] == mid.feed_forward@[k]);
            assert(mid.ff_edge_ok(mid.feed_forward@[k]));
        } else {
            assert(after.feed_forward@[k] == added);
        }
    }
    assert forall|k: int| 0 <= k < after.recurrent@.len() implies after.rec_edge_ok(
        #[trigger] after.recurrent@[k],
    ) by {
        assert(mid.rec_edge_ok(mid.recurrent@[k]));
    }
}

/// Pushing the new-node-to-successor edge completes the split and keeps the
/// genome well-formed.
proof fn lemma_split_second_push(
    before: Genome,
    mid: Genome,
    after: Genome,
    i: int,
    p: int,
    c: Connection,
    fresh: Node,
)
    requires
        before.wf(),
        mid.wf(),
        0 <= i < before.feed_forward@.len(),
        c == before.feed_forward@[i],
        0 <= p <= before.hidden@.len(),
        p < before.hidden@.len() ==> before.hidden@[p].id == c.output,
        p == before.hidden@.len() ==> !contains_node_id(before.hidden@, c.output),
        fresh.role == Role::Hidden,
        !contains_node_id(before.nodes(), fresh.id),
        mid.inputs@ == before.inputs@,
        mid.outputs@ == before.outputs@,
        mid.recurrent@ == before.recurrent@,
        mid.hidden@ == before.hidden@.insert(p, fresh),
        mid.feed_forward@ == before.feed_forward@.remove(i).push(
            (Connection { input: c.input, output: fresh.id, weight: WEIGHT_SCALE, id_counter: 0 }),
        ),
        after == (Genome {
            feed_forward: after.feed_forward,
            ..mid
        }),
        after.feed_forward@ == mid.feed_forward@.push(
            (Connection { input: fresh.id, output: c.output, weight: c.weight, id_counter: 0 }),
        ),
        forall|t: int|
            0 <= t < before.feed_forward@.len() ==> (#[trigger] before.feed_forward@[t]).input
                != fresh.id && before.feed_forward@[t].output != fresh.id,
    ensures
        after.wf(),
{
    let added = Connection { input: fresh.id, output: c.output, weight: c.weight, id_counter: 0 };
    assert(before.ff_edge_ok(c));
    assert(c.output != fresh.id);
    assert forall|a: int, b: int|
        0 <= a < b < after.feed_forward@.len() implies !((#[trigger] after.feed_forward@[a]).input
        == (#[trigger] after.feed_forward@[b]).input && after.feed_forward@[a].output
        == after.feed_forward@[b].output) by {
        if b == after.feed_forward@.len() - 1 {
            assert(after.feed_forward@[a] == mid.feed_forward@[a]);
            if a < mid.feed_forward@.len() - 1 {
                let a0 = if a < i {
                    a
                } else {
                    a + 1
                };
                assert(mid.feed_forward@[a] == before.feed_forward@[a0]);
                assert(before.feed_forward@[a0].input != fresh.id);
            } else {
                // the previously pushed edge starts at the predecessor, not
                // at the fresh node
                assert(mid.feed_forward@[a].input == c.input);
            }
        } else {
            assert(after.feed_forward@[a] == mid.feed_forward@[a]);
            assert(after.feed_forward@[b] == mid.feed_forward@[b]);
        }
    }
    // the new edge is legal
    assert(contains_node_id(mid.hidden@, fresh.id)) by {
        assert(mid.hidden@[p] == fresh);
    }
    assert(contains_node_id(before.hidden@, c.output) || contains_node_id(
        before.outputs@,
        c.output,
    ));
    if contains_node_id(before.hidden@, c.output) {
        lemma_contains_node_id_insert(before.hidden@, p, fresh, c.output);
    }
    assert forall|x: int, y: int|
        0 <= x < mid.hidden@.len() && 0 <= y < mid.hidden@.len() && (#[trigger] mid.hidden@[x]).id
            == added.input && (#[trigger] mid.hidden@[y]).id == added.output implies x < y by {
        if x != p {
            let x0 = if x < p {
                x
            } else {
                x - 1
            };
            assert(mid.hidden@[x] == before.hidden@[x0]);
            lemma_part_to_nodes(before, before.hidden@[x0].id);
            assert(false);
        }
        assert(y != p);
        let y0 = if y < p {
            y
        } else {
            y - 1
        };
        assert(mid.hidden@[y] == before.hidden@[y0]);
        assert(before.hidden@[y0].id == c.output);
        if p < before.hidden@.len() {
            lemma_hidden_id_unique(before, y0, p);
            assert(y0 == p);
            assert(y == p + 1);
        } else {
            assert(false);
        }
        assert(x < y);
    }
    assert forall|k: int| 0 <= k < after.feed_forward@.len() implies after.ff_edge_ok(
        #[trigger] after.feed_forward@[k],
    ) by {
        if k < after.feed_forward@.len() - 1 {
            assert(after.feed_forward@[k] == mid.feed_forward@[k]);
            assert(mid.ff_edge_ok(mid.feed_forward@[k]));
        } else {
            assert(after.feed_forward@[k] == added);
        }
    }
    assert forall|k: int| 0 <= k < after.recurrent@.len() implies after.rec_edge_ok(
        #[trigger] after.recurrent@[k],
    ) by {
        assert(mid.rec_edge_ok(mid.recurrent@[k]));
    }
}

} // verus!
