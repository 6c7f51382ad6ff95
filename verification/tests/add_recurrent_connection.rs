use rand::rngs::SmallRng;
use rand::SeedableRng;

use set_genome::genes::{Activation, Id, Node, Role};
use set_genome::genome::Genome;
use set_genome::mutations::{MutationError, Mutations};

fn one_in_one_out() -> Genome {
    Genome::new(
        vec![Node::new(Id(1), Role::Input, Activation::Linear)],
        vec![Node::new(Id(2), Role::Output, Activation::Tanh)],
    )
}

#[test]
fn add_random_connection() {
    let mut rng = SmallRng::seed_from_u64(42);
    let mut genome = one_in_one_out();

    assert!(Mutations::add_recurrent_connection(&mut genome, &mut rng).is_ok());

    assert_eq!(genome.recurrent.len(), 1);
}

#[test]
fn dont_add_same_connection_twice() {
    let mut rng = SmallRng::seed_from_u64(42);
    let mut genome = one_in_one_out();

    assert!(Mutations::add_recurrent_connection(&mut genome, &mut rng).is_ok());

    if let Err(error) = Mutations::add_recurrent_connection(&mut genome, &mut rng) {
        assert_eq!(error, MutationError::CouldNotAddRecurrentConnection);
    } else {
        unreachable!()
    }

    assert_eq!(genome.recurrent.len(), 1);
}

#[test]
fn saturated_connection_joins_input_to_output() {
    let mut rng = SmallRng::seed_from_u64(7);
    let mut genome = one_in_one_out();

    assert!(Mutations::add_recurrent_connection(&mut genome, &mut rng).is_ok());

    // the only legal pair is input -> output
    assert_eq!(genome.recurrent[0].input, Id(1));
    assert_eq!(genome.recurrent[0].output, Id(2));
    assert!(genome.recurrent[0].weight >= -1_000_000);
    assert!(genome.recurrent[0].weight <= 1_000_000);
    // everything else of the genome is untouched
    assert_eq!(genome.inputs.len(), 1);
    assert_eq!(genome.hidden.len(), 0);
    assert_eq!(genome.outputs.len(), 1);
    assert_eq!(genome.feed_forward.len(), 0);
}

#[test]
fn failed_attempt_leaves_genome_unchanged() {
    let mut rng = SmallRng::seed_from_u64(3);
    let mut genome = one_in_one_out();

    assert!(Mutations::add_recurrent_connection(&mut genome, &mut rng).is_ok());
    let weight_before = genome.recurrent[0].weight;

    assert!(Mutations::add_recurrent_connection(&mut genome, &mut rng).is_err());

    assert_eq!(genome.inputs.len(), 1);
    assert_eq!(genome.hidden.len(), 0);
    assert_eq!(genome.outputs.len(), 1);
    assert_eq!(genome.feed_forward.len(), 0);
    assert_eq!(genome.recurrent.len(), 1);
    assert_eq!(genome.recurrent[0].input, Id(1));
    assert_eq!(genome.recurrent[0].output, Id(2));
    assert_eq!(genome.recurrent[0].weight, weight_before);
    assert_eq!(genome.recurrent[0].id_counter, 0);
}
