use vstd::prelude::*;

use crate::genes::connections::Connection;
use crate::genes::ids::Id;
use crate::genes::nodes::{Node, Role};

verus! {

/// Whether some connection in `conns` has the identity `(input, output)`.
pub open spec fn contains_pair(conns: Seq<Connection>, input: Id, output: Id) -> bool {
    exists|i: int|
        0 <= i < conns.len() && conns[i].input == input && conns[i].output == output
}

/// No two connections of `conns` share the identity `(input, output)`.
pub open spec fn pairs_distinct(conns: Seq<Connection>) -> bool {
    forall|i: int, j: int|
        #![trigger conns[i], conns[j]]
        0 <= i < j < conns.len() ==> !(conns[i].input == conns[j].input
            && conns[i].output == conns[j].output)
}

/// Whether some node in `nodes` carries the id.
pub open spec fn contains_node_id(nodes: Seq<Node>, id: Id) -> bool {
    exists|i: int| 0 <= i < nodes.len() && nodes[i].id == id
}

/// All node ids of `nodes` are pairwise distinct.
pub open spec fn node_ids_distinct(nodes: Seq<Node>) -> bool {
    forall|i: int, j: int|
        #![trigger nodes[i], nodes[j]]
        0 <= i < j < nodes.len() ==> nodes[i].id != nodes[j].id
}

/// Owns the partitioned node-gene sets and the two independent connection
/// sets. A feed-forward and a recurrent edge may coexist between the same
/// endpoint pair; within one set every `(input, output)` identity is unique.
#[derive(Clone, Debug)]
pub struct Genome {
    pub inputs: Vec<Node>,
    pub hidden: Vec<Node>,
    pub outputs: Vec<Node>,
    pub feed_forward: Vec<Connection>,
    pub recurrent: Vec<Connection>,
}

impl Genome {
    /// All nodes, in the fixed order inputs, hidden, outputs.
    pub open spec fn nodes(self) -> Seq<Node> {
        self.inputs@ + self.hidden@ + self.outputs@
    }

    /// The nodes a connection may legally end at: hidden and output nodes.
    pub open spec fn end_nodes(self) -> Seq<Node> {
        self.hidden@ + self.outputs@
    }

    /// The nodes a feed-forward connection may legally start at.
    pub open spec fn ff_start_nodes(self) -> Seq<Node> {
        self.inputs@ + self.hidden@
    }

    /// Each partition holds only nodes of its role.
    pub open spec fn roles_ok(self) -> bool {
        &&& forall|i: int|
            0 <= i < self.inputs@.len() ==> (#[trigger] self.inputs@[i]).role == Role::Input
        &&& forall|i: int|
            0 <= i < self.hidden@.len() ==> (#[trigger] self.hidden@[i]).role == Role::Hidden
        &&& forall|i: int|
            0 <= i < self.outputs@.len() ==> (#[trigger] self.outputs@[i]).role == Role::Output
    }

    /// Wherever `a` and `b` both name hidden nodes, `a` stands strictly before
    /// `b` in the hidden sequence. The hidden order is the topological order
    /// of the feed-forward graph, which keeps it acyclic.
    pub open spec fn hidden_before(self, a: Id, b: Id) -> bool {
        forall|i: int, j: int|
            #![trigger self.hidden@[i], self.hidden@[j]]
            0 <= i < self.hidden@.len() && 0 <= j < self.hidden@.len() && self.hidden@[i].id == a
                && self.hidden@[j].id == b ==> i < j
    }

    /// A legal feed-forward edge: it starts at an input or hidden node, ends
    /// at a hidden or output node, is no self-loop, and respects the hidden
    /// topological order.
    pub open spec fn ff_edge_ok(self, c: Connection) -> bool {
        &&& contains_node_id(self.inputs@, c.input) || contains_node_id(self.hidden@, c.input)
        &&& contains_node_id(self.hidden@, c.output) || contains_node_id(self.outputs@, c.output)
        &&& c.input != c.output
        &&& self.hidden_before(c.input, c.output)
    }

    /// A legal recurrent edge: it starts at any node, ends at a hidden or
    /// output node (never an input), and is no self-loop.
    pub open spec fn rec_edge_ok(self, c: Connection) -> bool {
        &&& contains_node_id(self.nodes(), c.input)
        &&& contains_node_id(self.end_nodes(), c.output)
        &&& c.input != c.output
    }

    /// The genome's invariant: distinct node ids, role-true partitions,
    /// identity-unique connection sets, and every edge legal for its set.
    pub open spec fn wf(self) -> bool {
        &&& self.nodes().len() <= usize::MAX / 2
        &&& node_ids_distinct(self.nodes())
        &&& self.roles_ok()
        &&& pairs_distinct(self.feed_forward@)
        &&& pairs_distinct(self.recurrent@)
        &&& forall|k: int|
            0 <= k < self.feed_forward@.len() ==> self.ff_edge_ok(#[trigger] self.feed_forward@[k])
        &&& forall|k: int|
            0 <= k < self.recurrent@.len() ==> self.rec_edge_ok(#[trigger] self.recurrent@[k])
    }

    /// A fresh genome over the given input and output node genes, with no
    /// hidden nodes and no connections yet.
    pub fn new(inputs: Vec<Node>, outputs: Vec<Node>) -> (genome: Genome)
        requires
            inputs@.len() + outputs@.len() <= usize::MAX / 2,
            node_ids_distinct(inputs@ + outputs@),
            forall|i: int| 0 <= i < inputs@.len() ==> (#[trigger] inputs@[i]).role == Role::Input,
            forall|i: int|
                0 <= i < outputs@.len() ==> (#[trigger] outputs@[i]).role == Role::Output,
        ensures
            genome.wf(),
            genome.inputs == inputs,
            genome.outputs == outputs,
            genome.hidden@ == Seq::<Node>::empty(),
            genome.feed_forward@ == Seq::<Connection>::empty(),
            genome.recurrent@ == Seq::<Connection>::empty(),
    {
        let genome = Genome {
            inputs,
            hidden: Vec::new(),
            outputs,
            feed_forward: Vec::new(),
            recurrent: Vec::new(),
        };
        proof {
            assert(genome.nodes() =~= inputs@ + outputs@);
        }
        genome
    }

    /// The node at `pos` in the fixed order inputs, hidden, outputs.
    pub fn node_at(&self, pos: usize) -> (node: Node)
        requires
            self.nodes().len() <= usize::MAX,
            pos < self.nodes().len(),
        ensures
            node == self.nodes()[pos as int],
    {
        if pos < self.inputs.len() {
            self.inputs[pos]
        } else if pos < self.inputs.len() + self.hidden.len() {
            self.hidden[pos - self.inputs.len()]
        } else {
            self.outputs[pos - self.inputs.len() - self.hidden.len()]
        }
    }

    /// Whether any node of the genome carries `id`.
    pub fn has_node_id(&self, id: Id) -> (r: bool)
        ensures
            r == contains_node_id(self.nodes(), id),
    {
        let r = contains_node_id_exec(&self.inputs, id) || contains_node_id_exec(&self.hidden, id)
            || contains_node_id_exec(&self.outputs, id);
        proof {
            let ni = self.inputs@.len() as int;
            let nh = self.hidden@.len() as int;
            if r {
                if contains_node_id(self.inputs@, id) {
                    let w = choose|w: int| 0 <= w < self.inputs@.len() && self.inputs@[w].id == id;
                    assert(self.nodes()[w].id == id);
                } else if contains_node_id(self.hidden@, id) {
                    let w = choose|w: int| 0 <= w < self.hidden@.len() && self.hidden@[w].id == id;
                    assert(self.nodes()[ni + w].id == id);
                } else {
                    let w = choose|w: int|
                        0 <= w < self.outputs@.len() && self.outputs@[w].id == id;
                    assert(self.nodes()[ni + nh + w].id == id);
                }
            } else {
                if contains_node_id(self.nodes(), id) {
                    let w = choose|w: int| 0 <= w < self.nodes().len() && self.nodes()[w].id == id;
                    if w < ni {
                        assert(self.inputs@[w].id == id);
                    } else if w < ni + nh {
                        assert(self.hidden@[w - ni].id == id);
                    } else {
                        assert(self.outputs@[w - ni - nh].id == id);
                    }
                }
            }
        }
        r
    }

    /// The index of the hidden node carrying `id`, or the hidden count when
    /// no hidden node does.
    pub fn hidden_index_of(&self, id: Id) -> (r: usize)
        ensures
            r <= self.hidden@.len(),
            r < self.hidden@.len() ==> self.hidden@[r as int].id == id,
            r == self.hidden@.len() ==> !contains_node_id(self.hidden@, id),
    {
        let mut i: usize = 0;
        while i < self.hidden.len()
            invariant
                i <= self.hidden@.len(),
                forall|k: int| 0 <= k < i ==> (#[trigger] self.hidden@[k]).id != id,
            decreases self.hidden@.len() - i,
        {
            if self.hidden[i].id == id {
                return i;
            }
            i = i + 1;
        }
        i
    }

    /// The node at `pos` in the sequence of legal connection ends: hidden
    /// nodes first, then outputs.
    pub fn end_node_at(&self, pos: usize) -> (node: Node)
        requires
            pos < self.end_nodes().len(),
        ensures
            node == self.end_nodes()[pos as int],
    {
        if pos < self.hidden.len() {
            self.hidden[pos]
        } else {
            self.outputs[pos - self.hidden.len()]
        }
    }
}

/// A node id found in one partition is found among the genome's nodes.
pub proof fn lemma_part_to_nodes(g: Genome, x: Id)
    requires
        contains_node_id(g.inputs@, x) || contains_node_id(g.hidden@, x) || contains_node_id(
            g.outputs@,
            x,
        ),
    ensures
        contains_node_id(g.nodes(), x),
{
    let ni = g.inputs@.len() as int;
    let nh = g.hidden@.len() as int;
    if contains_node_id(g.inputs@, x) {
        let w = choose|w: int| 0 <= w < g.inputs@.len() && g.inputs@[w].id == x;
        assert(g.nodes()[w].id == x);
    } else if contains_node_id(g.hidden@, x) {
        let w = choose|w: int| 0 <= w < g.hidden@.len() && g.hidden@[w].id == x;
        assert(g.nodes()[ni + w].id == x);
    } else {
        let w = choose|w: int| 0 <= w < g.outputs@.len() && g.outputs@[w].id == x;
        assert(g.nodes()[ni + nh + w].id == x);
    }
}

/// Within a well-formed genome one id names at most one hidden node.
pub proof fn lemma_hidden_id_unique(g: Genome, a: int, b: int)
    requires
        g.wf(),
        0 <= a < g.hidden@.len(),
        0 <= b < g.hidden@.len(),
        g.hidden@[a].id == g.hidden@[b].id,
    ensures
        a == b,
{
    let ni = g.inputs@.len() as int;
    if a != b {
        assert(g.nodes()[ni + a] == g.hidden@[a]);
        assert(g.nodes()[ni + b] == g.hidden@[b]);
        if a < b {
            assert(g.nodes()[ni + a].id != g.nodes()[ni + b].id);
        } else {
            assert(g.nodes()[ni + b].id != g.nodes()[ni + a].id);
        }
        assert(false);
    }
}

/// Membership of a node id survives the insertion of another node.
pub proof fn lemma_contains_node_id_insert(s: Seq<Node>, p: int, fresh: Node, x: Id)
    requires
        0 <= p <= s.len(),
        contains_node_id(s, x),
    ensures
        contains_node_id(s.insert(p, fresh), x),
{
    let w = choose|w: int| 0 <= w < s.len() && s[w].id == x;
    if w < p {
        assert(s.insert(p, fresh)[w].id == x);
    } else {
        assert(s.insert(p, fresh)[w + 1].id == x);
    }
}

/// Inserting a hidden node with a fresh id anywhere into the hidden sequence
/// keeps the genome well-formed: memberships and the relative hidden order of
/// all existing nodes are preserved.
pub proof fn lemma_wf_after_hidden_insert(before: Genome, after: Genome, p: int, fresh: Node)
    requires
        before.wf(),
        after.nodes().len() <= usize::MAX / 2,
        0 <= p <= before.hidden@.len(),
        fresh.role == Role::Hidden,
        !contains_node_id(before.nodes(), fresh.id),
        after.inputs@ == before.inputs@,
        after.outputs@ == before.outputs@,
        after.feed_forward@ == before.feed_forward@,
        after.recurrent@ == before.recurrent@,
        after.hidden@ == before.hidden@.insert(p, fresh),
    ensures
        after.wf(),
        contains_node_id(after.hidden@, fresh.id),
        forall|t: int|
            0 <= t < after.hidden@.len() && t != p ==> (#[trigger] after.hidden@[t]) == (if t < p {
                before.hidden@[t]
            } else {
                before.hidden@[t - 1]
            }),
{
    let ni = before.inputs@.len() as int;
    let gp = ni + p;
    assert(after.nodes() =~= before.nodes().insert(gp, fresh));
    assert(after.hidden@[p] == fresh);
    assert forall|t: int|
        0 <= t < after.nodes().len() && t != gp implies (#[trigger] after.nodes()[t]) == (if t
        < gp {
        before.nodes()[t]
    } else {
        before.nodes()[t - 1]
    }) by {}
    assert forall|a: int, b: int| 0 <= a < b < after.nodes().len() implies (
    #[trigger] after.nodes()[a]).id != (#[trigger] after.nodes()[b]).id by {
        if a == gp {
            let b0 = b - 1;
            assert(after.nodes()[b] == before.nodes()[b0]);
            assert(!(before.nodes()[b0].id == fresh.id));
        } else if b == gp {
            assert(after.nodes()[a] == before.nodes()[a]);
            assert(!(before.nodes()[a].id == fresh.id));
        } else {
            let a0 = if a < gp {
                a
            } else {
                a - 1
            };
            let b0 = if b < gp {
                b
            } else {
                b - 1
            };
            assert(after.nodes()[a] == before.nodes()[a0]);
            assert(after.nodes()[b] == before.nodes()[b0]);
            if a0 < b0 {
                assert(before.nodes()[a0].id != before.nodes()[b0].id);
            } else {
                assert(a0 == b0);
                assert(false);
            }
        }
    }
    assert forall|t: int| 0 <= t < after.hidden@.len() implies (#[trigger] after.hidden@[t]).role
        == Role::Hidden by {
        if t != p {
            let t0 = if t < p {
                t
            } else {
                t - 1
            };
            assert(after.hidden@[t] == before.hidden@[t0]);
        }
    }
    assert forall|k: int| 0 <= k < after.feed_forward@.len() implies after.ff_edge_ok(
        #[trigger] after.feed_forward@[k],
    ) by {
        let c = after.feed_forward@[k];
        assert(before.ff_edge_ok(before.feed_forward@[k]));
        if contains_node_id(before.hidden@, c.input) {
            lemma_contains_node_id_insert(before.hidden@, p, fresh, c.input);
        }
        if contains_node_id(before.hidden@, c.output) {
            lemma_contains_node_id_insert(before.hidden@, p, fresh, c.output);
        }
        // the relative order of the existing hidden nodes is untouched
        assert forall|x: int, y: int|
            0 <= x < after.hidden@.len() && 0 <= y < after.hidden@.len()
                && (#[trigger] after.hidden@[x]).id == c.input && (#[trigger] after.hidden@[y]).id
                == c.output implies x < y by {
            assert(c.input != fresh.id && c.output != fresh.id) by {
                if contains_node_id(before.inputs@, c.input) {
                    let w = choose|w: int|
                        0 <= w < before.inputs@.len() && before.inputs@[w].id == c.input;
                    assert(before.nodes()[w].id == c.input);
                } else {
                    let w = choose|w: int|
                        0 <= w < before.hidden@.len() && before.hidden@[w].id == c.input;
                    assert(before.nodes()[ni + w].id == c.input);
                }
                if contains_node_id(before.hidden@, c.output) {
                    let w = choose|w: int|
                        0 <= w < before.hidden@.len() && before.hidden@[w].id == c.output;
                    assert(before.nodes()[ni + w].id == c.output);
                } else {
                    let w = choose|w: int|
                        0 <= w < before.outputs@.len() && before.outputs@[w].id == c.output;
                    assert(before.nodes()[ni + before.hidden@.len() + w].id == c.output);
                }
            }
            assert(x != p && y != p);
            let x0 = if x < p {
                x
            } else {
                x - 1
            };
            let y0 = if y < p {
                y
            } else {
                y - 1
            };
            assert(before.hidden@[x0].id == c.input);
            assert(before.hidden@[y0].id == c.output);
            assert(x0 < y0);
        }
    }
    assert forall|k: int| 0 <= k < after.recurrent@.len() implies after.rec_edge_ok(
        #[trigger] after.recurrent@[k],
    ) by {
        let c = after.recurrent@[k];
        assert(before.rec_edge_ok(before.recurrent@[k]));
        assert(after.end_nodes() =~= before.end_nodes().insert(p, fresh));
        lemma_contains_node_id_insert(before.nodes(), gp, fresh, c.input);
        lemma_contains_node_id_insert(before.end_nodes(), p, fresh, c.output);
    }
}

/// Removing one connection from a well-formed genome keeps it well-formed:
/// the surviving connections are the old ones, shifted.
pub proof fn lemma_wf_after_conn_remove(before: Genome, after: Genome, i: int, in_ff: bool)
    requires
        before.wf(),
        after.inputs@ == before.inputs@,
        after.hidden@ == before.hidden@,
        after.outputs@ == before.outputs@,
        in_ff ==> {
            &&& 0 <= i < before.feed_forward@.len()
            &&& after.recurrent@ == before.recurrent@
            &&& after.feed_forward@ == before.feed_forward@.remove(i)
        },
        !in_ff ==> {
            &&& 0 <= i < before.recurrent@.len()
            &&& after.feed_forward@ == before.feed_forward@
            &&& after.recurrent@ == before.recurrent@.remove(i)
        },
    ensures
        after.wf(),
{
    assert(after.nodes() == before.nodes());
    assert(after.end_nodes() == before.end_nodes());
    assert forall|a: int, b: int|
        0 <= a < b < after.feed_forward@.len() implies !((#[trigger] after.feed_forward@[a]).input
        == (#[trigger] after.feed_forward@[b]).input && after.feed_forward@[a].output
        == after.feed_forward@[b].output) by {
        if in_ff {
            let a0 = if a < i {
                a
            } else {
                a + 1
            };
            let b0 = if b < i {
                b
            } else {
                b + 1
            };
            assert(after.feed_forward@[a] == before.feed_forward@[a0]);
            assert(after.feed_forward@[b] == before.feed_forward@[b0]);
            assert(!(before.feed_forward@[a0].input == before.feed_forward@[b0].input
                && before.feed_forward@[a0].output == before.feed_forward@[b0].output));
        } else {
            assert(!(before.feed_forward@[a].input == before.feed_forward@[b].input
                && before.feed_forward@[a].output == before.feed_forward@[b].output));
        }
    }
    assert forall|a: int, b: int|
        0 <= a < b < after.recurrent@.len() implies !((#[trigger] after.recurrent@[a]).input
        == (#[trigger] after.recurrent@[b]).input && after.recurrent@[a].output
        == after.recurrent@[b].output) by {
        if !in_ff {
            let a0 = if a < i {
                a
            } else {
                a + 1
            };
            let b0 = if b < i {
                b
            } else {
                b + 1
            };
            assert(after.recurrent@[a] == before.recurrent@[a0]);
            assert(after.recurrent@[b] == before.recurrent@[b0]);
            assert(!(before.recurrent@[a0].input == before.recurrent@[b0].input
                && before.recurrent@[a0].output == before.recurrent@[b0].output));
        } else {
            assert(!(before.recurrent@[a].input == before.recurrent@[b].input
                && before.recurrent@[a].output == before.recurrent@[b].output));
        }
    }
    assert forall|k: int| 0 <= k < after.feed_forward@.len() implies after.ff_edge_ok(
        #[trigger] after.feed_forward@[k],
    ) by {
        if in_ff {
            let k0 = if k < i {
                k
            } else {
                k + 1
            };
            assert(after.feed_forward@[k] == before.feed_forward@[k0]);
            assert(before.ff_edge_ok(before.feed_forward@[k0]));
        } else {
            assert(before.ff_edge_ok(before.feed_forward@[k]));
        }
    }
    assert forall|k: int| 0 <= k < after.recurrent@.len() implies after.rec_edge_ok(
        #[trigger] after.recurrent@[k],
    ) by {
        if !in_ff {
            let k0 = if k < i {
                k
            } else {
                k + 1
            };
            assert(after.recurrent@[k] == before.recurrent@[k0]);
            assert(before.rec_edge_ok(before.recurrent@[k0]));
        } else {
            assert(before.rec_edge_ok(before.recurrent@[k]));
        }
    }
}

/// Whether the connection set holds the identity `(input, output)`, by scan.
pub fn contains_pair_exec(conns: &Vec<Connection>, input: Id, output: Id) -> (r: bool)
    ensures
        r == contains_pair(conns@, input, output),
{
    let mut i: usize = 0;
    while i < conns.len()
        invariant
            i <= conns@.len(),
            !contains_pair(conns@.subrange(0, i as int), input, output),
        decreases conns@.len() - i,
    {
        let c = conns[i];
        if c.input == input && c.output == output {
            assert(conns@[i as int].input == input && conns@[i as int].output == output);
            return true;
        }
        proof {
            assert(conns@.subrange(0, i + 1 as int) =~= conns@.subrange(0, i as int).push(
                conns@[i as int],
            ));
        }
        i = i + 1;
    }
    proof {
        assert(conns@.subrange(0, i as int) =~= conns@);
    }
    false
}

/// Whether some node of `nodes` carries `id`, by scan.
pub fn contains_node_id_exec(nodes: &Vec<Node>, id: Id) -> (r: bool)
    ensures
        r == contains_node_id(nodes@, id),
{
    let mut i: usize = 0;
    while i < nodes.len()
        invariant
            i <= nodes@.len(),
            forall|k: int| 0 <= k < i ==> (#[trigger] nodes@[k]).id != id,
        decreases nodes@.len() - i,
    {
        if nodes[i].id == id {
            return true;
        }
        i = i + 1;
    }
    false
}

} // verus!
