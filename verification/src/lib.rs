//! Genome data model and mutation-operator engine for evolving neural-network
//! topologies: node and connection genes, hash-derived gene identities, genome
//! invariants, and a catalog of probability-gated structural mutations.

pub mod genes;
pub mod genome;
pub mod mutations;
mod rng;
