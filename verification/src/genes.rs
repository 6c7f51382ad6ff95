//! The minimal evolvable units: node genes and connection genes, together with
//! the identity values that make homologous structure recognisable across
//! differently shaped genomes.

pub mod activations;
pub mod connections;
pub mod ids;
pub mod nodes;

pub use activations::Activation;
pub use connections::Connection;
pub use ids::Id;
pub use nodes::Node;
pub use nodes::Role;
