//! The mutation catalog: a closed set of probability-gated operators that
//! transform a genome in place through a supplied randomness source, each
//! atomic and each reporting typed infeasibility instead of a partial change.

pub mod add_connection;
pub mod add_node;
pub mod add_recurrent_connection;
pub mod change_activation;
pub mod change_weights;
pub mod error;
pub mod remove_connection;
pub mod remove_node;
pub mod remove_recurrent_connection;

pub use error::MutationError;

use vstd::prelude::*;

use crate::genes::activations::Activation;
use crate::genes::connections::MAX_WEIGHT_CAP;
use crate::genome::Genome;
use crate::mutations::add_connection::{ff_added, ff_start_feasible};
use crate::mutations::add_node::{node_split, split_blocked};
use crate::mutations::add_recurrent_connection::{rec_added, rec_window_infeasible};
use crate::mutations::change_activation::activation_changed;
use crate::mutations::change_weights::weights_adjusted;
use crate::mutations::remove_connection::ff_removed;
use crate::mutations::remove_node::node_removed;
use crate::mutations::remove_recurrent_connection::rec_removed;
use crate::rng::below;

verus! {

/// Probabilities are fixed-point values: `CHANCE_SCALE` units stand for 1.0.
pub const CHANCE_SCALE: u64 = 1_000_000;

pub type MutationResult = Result<(), MutationError>;

/// Lists all possible mutations with their corresponding parameters.
///
/// Each mutation acts as a self-contained unit; `chance` gates how often the
/// operator fires when `Mutations::mutate` is called.
#[derive(Clone, Debug)]
pub enum Mutations {
    ChangeWeights { chance: u64, percent_perturbed: u64, weight_cap: i64 },
    ChangeActivation { chance: u64, activation_pool: Vec<Activation> },
    AddNode { chance: u64, activation_pool: Vec<Activation> },
    AddConnection { chance: u64 },
    AddRecurrentConnection { chance: u64 },
    RemoveNode { chance: u64 },
    RemoveConnection { chance: u64 },
    RemoveRecurrentConnection { chance: u64 },
}

impl Mutations {
    /// The trigger probability of this variant, in `CHANCE_SCALE` units.
    pub open spec fn chance_of(self) -> u64 {
        match self {
            Mutations::ChangeWeights { chance, .. } => chance,
            Mutations::ChangeActivation { chance, .. } => chance,
            Mutations::AddNode { chance, .. } => chance,
            Mutations::AddConnection { chance } => chance,
            Mutations::AddRecurrentConnection { chance } => chance,
            Mutations::RemoveNode { chance } => chance,
            Mutations::RemoveConnection { chance } => chance,
            Mutations::RemoveRecurrentConnection { chance } => chance,
        }
    }

    /// The variant's parameters respect the machine bound on weight caps.
    pub open spec fn valid(self) -> bool {
        match self {
            Mutations::ChangeWeights { weight_cap, .. } => 0 <= weight_cap <= MAX_WEIGHT_CAP,
            _ => true,
        }
    }

    /// Mutate a genome, respecting the `chance` field of the variant: a
    /// uniform draw below `chance` applies the operator, any other draw skips
    /// it. An `Err` is always the dispatched operator's own typed
    /// infeasibility outcome, reported exactly when the operator reported it,
    /// and always leaves the genome untouched; whatever the draw, the genome
    /// either stays as it was or shows precisely the dispatched operator's
    /// effect. A gate that never fires (`chance` zero) never changes the
    /// genome; a gate at or above `CHANCE_SCALE` always dispatches, so the
    /// operator's own outcome is owed.
    pub fn mutate(&self, genome: &mut Genome, rng: &mut rand::rngs::SmallRng) -> (r:
        MutationResult)
        requires
            old(genome).wf(),
            self.valid(),
        ensures
            final(genome).wf(),
            r is Err ==> *final(genome) == *old(genome),
            self.chance_of() == 0 ==> r is Ok && *final(genome) == *old(genome),
            (self matches Mutations::ChangeWeights { .. } || self
                matches Mutations::ChangeActivation { .. } || self matches Mutations::AddNode {
                ..
            }) ==> r is Ok,
            r == Err::<(), MutationError>(MutationError::CouldNotAddConnection) ==> self
                matches Mutations::AddConnection { .. },
            r == Err::<(), MutationError>(MutationError::CouldNotAddRecurrentConnection) ==> self
                matches Mutations::AddRecurrentConnection { .. },
            r == Err::<(), MutationError>(MutationError::CouldNotRemoveNode) ==> self
                matches Mutations::RemoveNode { .. },
            r == Err::<(), MutationError>(MutationError::CouldNotRemoveConnection) ==> self
                matches Mutations::RemoveConnection { .. },
            r == Err::<(), MutationError>(MutationError::CouldNotRemoveRecurrentConnection)
                ==> self matches Mutations::RemoveRecurrentConnection { .. },
            // whatever the draw: the dispatched operator's effect, or no
            // change at all
            self matches Mutations::ChangeWeights { weight_cap, .. } ==> weights_adjusted(
                *old(genome),
                *final(genome),
                *weight_cap,
            ),
            self matches Mutations::ChangeActivation { activation_pool, .. } ==> (*final(genome)
                == *old(genome) || activation_changed(
                *old(genome),
                *final(genome),
                activation_pool@,
            )),
            self matches Mutations::AddNode { activation_pool, .. } ==> (*final(genome) == *old(genome) || node_split(*old(genome), *final(genome), activation_pool@)),
            self matches Mutations::AddConnection { .. } ==> (r is Ok ==> *final(genome) == *old(genome) || ff_added(*old(genome), *final(genome))),
            self matches Mutations::AddRecurrentConnection { .. } ==> (r is Ok ==> *final(genome)
                == *old(genome) || rec_added(*old(genome), *final(genome))),
            self matches Mutations::RemoveNode { .. } ==> (r is Ok ==> *final(genome) == *old(genome) || node_removed(*old(genome), *final(genome))),
            self matches Mutations::RemoveConnection { .. } ==> (r is Ok ==> *final(genome)
                == *old(genome) || ff_removed(*old(genome), *final(genome))),
            self matches Mutations::RemoveRecurrentConnection { .. } ==> (r is Ok ==> *final(genome) == *old(genome) || rec_removed(*old(genome), *final(genome))),
            // an error carries the dispatched operator's own infeasibility
            // characterization
            self matches Mutations::AddConnection { .. } ==> (r is Err ==> (forall|si: int|
                0 <= si < old(genome).ff_start_nodes().len() ==> !ff_start_feasible(
                    *old(genome),
                    si,
                ))),
            self matches Mutations::AddRecurrentConnection { .. } ==> (r is Err ==> (old(genome).ff_start_nodes().len() == 0 || exists|k: int|
                0 <= k < old(genome).ff_start_nodes().len() && rec_window_infeasible(
                    *old(genome),
                    k,
                ))),
            self matches Mutations::RemoveNode { .. } ==> (r is Err ==> old(genome).hidden@.len()
                == 0),
            self matches Mutations::RemoveConnection { .. } ==> (r is Err ==> old(genome).feed_forward@.len() == 0),
            self matches Mutations::RemoveRecurrentConnection { .. } ==> (r is Err ==> old(genome).recurrent@.len() == 0),
            // a gate at or above CHANCE_SCALE provably fires, so the
            // operator's own outcome is owed
            self matches Mutations::ChangeActivation { chance, activation_pool } ==> (*chance
                >= CHANCE_SCALE && old(genome).hidden@.len() > 0 && activation_pool@.len() > 0
                ==> activation_changed(*old(genome), *final(genome), activation_pool@)),
            self matches Mutations::AddNode { chance, activation_pool } ==> (*chance
                >= CHANCE_SCALE ==> (*final(genome) == *old(genome) ==> split_blocked(
                *old(genome),
                activation_pool@,
            ))),
            self matches Mutations::AddConnection { chance } ==> (*chance >= CHANCE_SCALE ==> (r
                is Err <==> (forall|si: int|
                0 <= si < old(genome).ff_start_nodes().len() ==> !ff_start_feasible(
                    *old(genome),
                    si,
                )))),
            self matches Mutations::AddRecurrentConnection { chance } ==> (*chance >= CHANCE_SCALE
                && old(genome).ff_start_nodes().len() == 0 ==> r is Err),
            self matches Mutations::RemoveNode { chance } ==> (*chance >= CHANCE_SCALE ==> (r
                is Err <==> old(genome).hidden@.len() == 0)),
            self matches Mutations::RemoveConnection { chance } ==> (*chance >= CHANCE_SCALE ==> (
            r is Err <==> old(genome).feed_forward@.len() == 0)),
            self matches Mutations::RemoveRecurrentConnection { chance } ==> (*chance
                >= CHANCE_SCALE ==> (r is Err <==> old(genome).recurrent@.len() == 0)),
    {
        match self {
            Mutations::ChangeWeights { chance, percent_perturbed, weight_cap } => {
                if below(rng, CHANCE_SCALE) < *chance {
                    Self::change_weights(*percent_perturbed, *weight_cap, genome, rng);
                }
                Ok(())
            },
            Mutations::AddNode { chance, activation_pool } => {
                if below(rng, CHANCE_SCALE) < *chance {
                    Self::add_node(activation_pool, genome, rng);
                }
                Ok(())
            },
            Mutations::AddConnection { chance } => {
                if below(rng, CHANCE_SCALE) < *chance {
                    Self::add_connection(genome, rng)
                } else {
                    Ok(())
                }
            },
            Mutations::AddRecurrentConnection { chance } => {
                if below(rng, CHANCE_SCALE) < *chance {
                    Self::add_recurrent_connection(genome, rng)
                } else {
                    Ok(())
                }
            },
            Mutations::ChangeActivation { chance, activation_pool } => {
                if below(rng, CHANCE_SCALE) < *chance {
                    Self::change_activation(activation_pool, genome, rng);
                }
                Ok(())
            },
            Mutations::RemoveNode { chance } => {
                if below(rng, CHANCE_SCALE) < *chance {
                    Self::remove_node(genome, rng)
                } else {
                    Ok(())
                }
            },
            Mutations::RemoveConnection { chance } => {
                if below(rng, CHANCE_SCALE) < *chance {
                    Self::remove_connection(genome, rng)
                } else {
                    Ok(())
                }
            },
            Mutations::RemoveRecurrentConnection { chance } => {
                if below(rng, CHANCE_SCALE) < *chance {
                    Self::remove_recurrent_connection(genome, rng)
                } else {
                    Ok(())
                }
            },
        }
    }
}

} // verus!
