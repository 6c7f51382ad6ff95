use vstd::prelude::*;

use crate::genes::activations::Activation;
use crate::genes::ids::Id;

verus! {

/// Where a node stands in the network. The role is fixed at creation: inputs
/// and outputs are never converted to hidden or vice versa.
#[derive(Clone, Copy, PartialEq, Eq, Structural, Debug)]
pub enum Role {
    Input,
    Hidden,
    Output,
}

/// Struct describing an ANN node gene: its identity, its fixed role and its
/// activation function.
#[derive(Clone, Copy, PartialEq, Eq, Structural, Debug)]
pub struct Node {
    pub id: Id,
    pub role: Role,
    pub activation: Activation,
}

impl Node {
    pub fn new(id: Id, role: Role, activation: Activation) -> (node: Node)
        ensures
            node == (Node { id, role, activation }),
    {
        Node { id, role, activation }
    }

    /// Per-gene merge for crossover: the child keeps this gene's structural
    /// fields (`id`, `role`) and adopts the other parent's mutable field
    /// (`activation`).
    pub fn recombine(&self, other: &Self) -> (child: Node)
        ensures
            child.id == self.id,
            child.role == self.role,
            child.activation == other.activation,
    {
        Node { activation: other.activation, ..*self }
    }
}

} // verus!
