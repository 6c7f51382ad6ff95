use std::collections::HashSet;

use rand::rngs::SmallRng;
use rand::SeedableRng;

use set_genome::genes::{Activation, Connection, Id, Node, Role};

#[test]
fn ten_thousand_derived_ids_are_distinct() {
    let mut gene = Connection::new(Id(17), 0, Id(23));
    let mut seen: HashSet<Id> = HashSet::new();
    for _ in 0..10_000 {
        let id = gene.next_id();
        assert!(seen.insert(id));
    }
    assert_eq!(gene.id_counter, 10_000);
}

#[test]
fn derived_ids_are_deterministic() {
    let mut first = Connection::new(Id(5), 0, Id(9));
    let mut second = Connection::new(Id(5), 300_000, Id(9));
    // same endpoints and counter yield the same id, whatever the weight
    assert_eq!(first.next_id(), second.next_id());
    assert_eq!(first.next_id(), second.next_id());
    // a different endpoint pair yields another stream
    let mut other = Connection::new(Id(6), 0, Id(9));
    assert_ne!(first.next_id(), other.next_id());
}

#[test]
fn clone_inherits_the_counter() {
    let mut gene = Connection::new(Id(1), 0, Id(2));
    let first = gene.next_id();
    let mut copy = gene.clone();
    // the clone continues the stream instead of restarting it
    assert_ne!(first, copy.next_id());
    assert_eq!(copy.id_counter, 2);
}

#[test]
fn perturbation_stays_within_cap() {
    let mut rng = SmallRng::seed_from_u64(11);
    for _ in 0..200 {
        let value = Connection::weight_perturbation(0, 1_000_000, &mut rng);
        assert!(value >= -1_000_000);
        assert!(value <= 1_000_000);
    }
    for _ in 0..200 {
        let value = Connection::weight_perturbation(990_000, 1_000_000, &mut rng);
        assert!(value >= -1_000_000);
        assert!(value <= 1_000_000);
    }
    for _ in 0..200 {
        let value = Connection::weight_perturbation(-250_000, 250_000, &mut rng);
        assert!(value >= -250_000);
        assert!(value <= 250_000);
    }
}

#[test]
fn perturbation_moves_the_weight_by_at_most_six() {
    let mut rng = SmallRng::seed_from_u64(13);
    // with a huge cap the contraction never fires, so the result stays
    // within one Irwin-Hall sample (six units) of the old weight
    for _ in 0..200 {
        let weight: i64 = 900_000_000_000;
        let value = Connection::weight_perturbation(weight, 1_000_000_000_000, &mut rng);
        assert!(value >= weight - 6_000_000);
        assert!(value <= weight + 6_000_000);
    }
}

#[test]
fn contraction_converges_within_forty_steps() {
    // a weight close to the cap forces many contraction steps
    let (value, steps) = Connection::bound_perturbation(990_000, 1_000_000, 6_000_000);
    assert!(value >= -1_000_000);
    assert!(value <= 1_000_000);
    assert!(steps <= 40);
    let (value, steps) = Connection::bound_perturbation(990_000, 1_000_000, -6_000_000);
    assert!(value >= -1_000_000);
    assert!(value <= 1_000_000);
    assert!(steps <= 40);
    // a perturbation already in bound takes no step at all
    let (value, steps) = Connection::bound_perturbation(0, 1_000_000, 500_000);
    assert_eq!(value, 500_000);
    assert_eq!(steps, 0);
}

#[test]
fn contraction_halves_and_flips() {
    // 990_000 + 6_000_000 is out of bound; the perturbation is halved with
    // flipped sign until the sum fits: 6_000_000, -3_000_000, 1_500_000,
    // -750_000, and 990_000 - 750_000 = 240_000 lies within the cap
    let (value, steps) = Connection::bound_perturbation(990_000, 1_000_000, 6_000_000);
    assert_eq!(value, 240_000);
    assert_eq!(steps, 3);
}

#[test]
fn connection_recombination_keeps_structure_adopts_weight() {
    let mut own = Connection::new(Id(1), 400_000, Id(2));
    own.next_id();
    let other = Connection::new(Id(1), -100_000, Id(2));
    let child = own.recombine(&other);
    assert_eq!(child.input, Id(1));
    assert_eq!(child.output, Id(2));
    assert_eq!(child.id_counter, 1);
    assert_eq!(child.weight, -100_000);
}

#[test]
fn node_recombination_keeps_structure_adopts_activation() {
    let own = Node::new(Id(4), Role::Hidden, Activation::Tanh);
    let other = Node::new(Id(4), Role::Hidden, Activation::Sigmoid);
    let child = own.recombine(&other);
    assert_eq!(child.id, Id(4));
    assert_eq!(child.role, Role::Hidden);
    assert_eq!(child.activation, Activation::Sigmoid);
}

#[test]
fn connection_equality_is_identity_only() {
    let left = Connection::new(Id(1), 500_000, Id(2));
    let right = Connection::new(Id(1), -500_000, Id(2));
    assert_eq!(left, right);
    let elsewhere = Connection::new(Id(1), 500_000, Id(3));
    assert_ne!(left, elsewhere);
    assert_eq!(left.id(), (Id(1), Id(2)));
}
