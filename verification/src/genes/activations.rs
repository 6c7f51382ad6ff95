use vstd::prelude::*;

verus! {

/// The activation function a node gene applies; a mutation may reset it from a
/// configured pool. The network execution engine that interprets these tags is
/// an external collaborator.
#[derive(Clone, Copy, PartialEq, Eq, Structural, Debug)]
pub enum Activation {
    Linear,
    Sigmoid,
    Tanh,
    Gaussian,
    Step,
    Sine,
    Cosine,
    Inverse,
    Absolute,
    Relu,
    Squared,
}

} // verus!
