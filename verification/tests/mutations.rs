use rand::rngs::SmallRng;
use rand::SeedableRng;

use set_genome::genes::{Activation, Connection, Id, Node, Role};
use set_genome::genome::Genome;
use set_genome::mutations::{MutationError, Mutations};

fn one_in_one_out() -> Genome {
    Genome::new(
        vec![Node::new(Id(1), Role::Input, Activation::Linear)],
        vec![Node::new(Id(2), Role::Output, Activation::Tanh)],
    )
}

fn split_candidate() -> Genome {
    // exactly one feed-forward connection from the input to the output, with
    // a weight standing for 0.5
    let mut genome = one_in_one_out();
    genome.feed_forward.push(Connection::new(Id(1), 500_000, Id(2)));
    genome
}

#[test]
fn add_node_splits_the_connection() {
    let mut rng = SmallRng::seed_from_u64(21);
    let mut genome = split_candidate();
    let pool = vec![Activation::Sigmoid];

    Mutations::add_node(&pool, &mut genome, &mut rng);

    assert_eq!(genome.hidden.len(), 1);
    let fresh = genome.hidden[0];
    assert_eq!(fresh.role, Role::Hidden);
    assert_eq!(fresh.activation, Activation::Sigmoid);
    // the new node's id differs from both endpoints
    assert_ne!(fresh.id, Id(1));
    assert_ne!(fresh.id, Id(2));
    // predecessor -> new node at full weight, new node -> successor at the
    // split connection's weight
    assert_eq!(genome.feed_forward.len(), 2);
    assert_eq!(genome.feed_forward[0].input, Id(1));
    assert_eq!(genome.feed_forward[0].output, fresh.id);
    assert_eq!(genome.feed_forward[0].weight, 1_000_000);
    assert_eq!(genome.feed_forward[1].input, fresh.id);
    assert_eq!(genome.feed_forward[1].output, Id(2));
    assert_eq!(genome.feed_forward[1].weight, 500_000);
    // the three identities are pairwise distinct
    assert_ne!(genome.feed_forward[0].id(), genome.feed_forward[1].id());
    assert_ne!(genome.feed_forward[0].id(), (Id(1), Id(2)));
    assert_ne!(genome.feed_forward[1].id(), (Id(1), Id(2)));
}

#[test]
fn add_node_derives_the_id_from_the_split_gene() {
    let mut rng = SmallRng::seed_from_u64(22);
    let mut genome = split_candidate();
    let pool = vec![Activation::Tanh];

    Mutations::add_node(&pool, &mut genome, &mut rng);

    // the new node's id is the first id the removed gene derives
    let mut ancestor = Connection::new(Id(1), 500_000, Id(2));
    assert_eq!(genome.hidden[0].id, ancestor.next_id());
}

#[test]
fn add_node_does_nothing_without_connections() {
    let mut rng = SmallRng::seed_from_u64(23);
    let mut genome = one_in_one_out();
    let pool = vec![Activation::Sigmoid];

    Mutations::add_node(&pool, &mut genome, &mut rng);

    assert_eq!(genome.hidden.len(), 0);
    assert_eq!(genome.feed_forward.len(), 0);
}

#[test]
fn add_connection_connects_and_then_saturates() {
    let mut rng = SmallRng::seed_from_u64(31);
    let mut genome = one_in_one_out();

    assert!(Mutations::add_connection(&mut genome, &mut rng).is_ok());
    assert_eq!(genome.feed_forward.len(), 1);
    assert_eq!(genome.feed_forward[0].input, Id(1));
    assert_eq!(genome.feed_forward[0].output, Id(2));
    assert!(genome.feed_forward[0].weight >= -1_000_000);
    assert!(genome.feed_forward[0].weight <= 1_000_000);

    // the only pair is taken now
    assert_eq!(
        Mutations::add_connection(&mut genome, &mut rng),
        Err(MutationError::CouldNotAddConnection)
    );
    assert_eq!(genome.feed_forward.len(), 1);
}

#[test]
fn remove_connection_errors_on_empty_set() {
    let mut rng = SmallRng::seed_from_u64(41);
    let mut genome = one_in_one_out();
    assert_eq!(
        Mutations::remove_connection(&mut genome, &mut rng),
        Err(MutationError::CouldNotRemoveConnection)
    );
    assert_eq!(
        Mutations::remove_recurrent_connection(&mut genome, &mut rng),
        Err(MutationError::CouldNotRemoveRecurrentConnection)
    );
    assert_eq!(
        Mutations::remove_node(&mut genome, &mut rng),
        Err(MutationError::CouldNotRemoveNode)
    );
}

#[test]
fn remove_connection_removes_one() {
    let mut rng = SmallRng::seed_from_u64(42);
    let mut genome = split_candidate();
    assert!(Mutations::remove_connection(&mut genome, &mut rng).is_ok());
    assert_eq!(genome.feed_forward.len(), 0);
}

#[test]
fn remove_node_takes_incident_connections_along() {
    let mut rng = SmallRng::seed_from_u64(43);
    let mut genome = split_candidate();
    let pool = vec![Activation::Sigmoid];
    Mutations::add_node(&pool, &mut genome, &mut rng);
    assert_eq!(genome.hidden.len(), 1);
    assert_eq!(genome.feed_forward.len(), 2);

    assert!(Mutations::remove_node(&mut genome, &mut rng).is_ok());

    assert_eq!(genome.hidden.len(), 0);
    assert_eq!(genome.feed_forward.len(), 0);
    assert_eq!(genome.inputs.len(), 1);
    assert_eq!(genome.outputs.len(), 1);
}

#[test]
fn change_weights_respects_the_cap() {
    let mut rng = SmallRng::seed_from_u64(51);
    let mut genome = split_candidate();
    assert!(Mutations::add_recurrent_connection(&mut genome, &mut rng).is_ok());

    Mutations::change_weights(1_000_000, 1_000_000, &mut genome, &mut rng);

    assert_eq!(genome.feed_forward.len(), 1);
    assert_eq!(genome.recurrent.len(), 1);
    for c in genome.feed_forward.iter().chain(genome.recurrent.iter()) {
        assert!(c.weight >= -1_000_000);
        assert!(c.weight <= 1_000_000);
    }
    // identities are untouched
    assert_eq!(genome.feed_forward[0].id(), (Id(1), Id(2)));
}

#[test]
fn change_activation_draws_from_the_pool() {
    let mut rng = SmallRng::seed_from_u64(52);
    let mut genome = split_candidate();
    let pool = vec![Activation::Relu];
    Mutations::add_node(&pool, &mut genome, &mut rng);
    assert_eq!(genome.hidden.len(), 1);

    let new_pool = vec![Activation::Gaussian];
    Mutations::change_activation(&new_pool, &mut genome, &mut rng);

    assert_eq!(genome.hidden[0].activation, Activation::Gaussian);
    assert_eq!(genome.hidden[0].role, Role::Hidden);
}

#[test]
fn change_activation_without_hidden_nodes_is_a_no_op() {
    let mut rng = SmallRng::seed_from_u64(53);
    let mut genome = one_in_one_out();
    let pool = vec![Activation::Gaussian];
    Mutations::change_activation(&pool, &mut genome, &mut rng);
    assert_eq!(genome.hidden.len(), 0);
    assert_eq!(genome.inputs[0].activation, Activation::Linear);
    assert_eq!(genome.outputs[0].activation, Activation::Tanh);
}

#[test]
fn mutate_never_fires_at_chance_zero() {
    let mut rng = SmallRng::seed_from_u64(61);
    let mut genome = one_in_one_out();
    let gated = Mutations::AddConnection { chance: 0 };
    for _ in 0..50 {
        assert!(gated.mutate(&mut genome, &mut rng).is_ok());
    }
    assert_eq!(genome.feed_forward.len(), 0);
}

#[test]
fn mutate_always_fires_at_full_chance() {
    let mut rng = SmallRng::seed_from_u64(62);
    let mut genome = one_in_one_out();
    let always = Mutations::AddConnection { chance: 1_000_000 };
    assert!(always.mutate(&mut genome, &mut rng).is_ok());
    assert_eq!(genome.feed_forward.len(), 1);
    // a second attempt is infeasible and reports the operator's own outcome
    assert_eq!(
        always.mutate(&mut genome, &mut rng),
        Err(MutationError::CouldNotAddConnection)
    );
}

#[test]
fn mutate_add_node_at_full_chance_splits() {
    let mut rng = SmallRng::seed_from_u64(64);
    let mut genome = split_candidate();
    let mutation =
        Mutations::AddNode { chance: 1_000_000, activation_pool: vec![Activation::Sigmoid] };

    assert!(mutation.mutate(&mut genome, &mut rng).is_ok());

    assert_eq!(genome.hidden.len(), 1);
    let fresh = genome.hidden[0];
    assert_eq!(fresh.activation, Activation::Sigmoid);
    assert_ne!(fresh.id, Id(1));
    assert_ne!(fresh.id, Id(2));
    assert_eq!(genome.feed_forward.len(), 2);
    assert_eq!(genome.feed_forward[0].input, Id(1));
    assert_eq!(genome.feed_forward[0].output, fresh.id);
    assert_eq!(genome.feed_forward[1].input, fresh.id);
    assert_eq!(genome.feed_forward[1].output, Id(2));
    assert_ne!(genome.feed_forward[0].id(), genome.feed_forward[1].id());
}

#[test]
fn mutate_applies_each_catalog_entry() {
    let mut rng = SmallRng::seed_from_u64(63);
    let mut genome = split_candidate();
    let pool = vec![Activation::Sigmoid, Activation::Tanh];
    let catalog = vec![
        Mutations::ChangeWeights {
            chance: 1_000_000,
            percent_perturbed: 500_000,
            weight_cap: 1_000_000,
        },
        Mutations::AddNode { chance: 1_000_000, activation_pool: pool.clone() },
        Mutations::AddConnection { chance: 1_000_000 },
        Mutations::AddRecurrentConnection { chance: 1_000_000 },
        Mutations::ChangeActivation { chance: 1_000_000, activation_pool: pool },
        Mutations::RemoveRecurrentConnection { chance: 1_000_000 },
    ];
    for mutation in &catalog {
        assert!(mutation.mutate(&mut genome, &mut rng).is_ok());
    }
    assert_eq!(genome.hidden.len(), 1);
    assert_eq!(genome.recurrent.len(), 0);
    for c in genome.feed_forward.iter() {
        assert!(c.weight >= -1_000_000);
        assert!(c.weight <= 1_000_000);
        assert_ne!(c.input, c.output);
    }
}
