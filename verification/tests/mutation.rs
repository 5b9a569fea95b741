use rustneat::nn::gene::Real;
use rustneat::nn::mutation::{Draws, Mutations};
use rustneat::nn::NeuralNetwork;

fn real_of(x: f64) -> Real {
    Real::from_bits(x.to_bits())
}

fn float_of(x: Real) -> f64 {
    f64::from_bits(x.to_bits())
}

fn ids_of_neurons(genome: &NeuralNetwork) -> Vec<usize> {
    genome.neurons.keys().cloned().collect()
}

fn ids_of_connections(genome: &NeuralNetwork) -> Vec<(usize, usize)> {
    genome.connections.keys().cloned().collect()
}

fn connections_are_attached(genome: &NeuralNetwork) -> bool {
    genome.connections.iter().all(|(id, gene)| {
        gene.id() == *id && genome.neurons.contains_key(&id.0) && genome.neurons.contains_key(&id.1)
    })
}

fn small_genome() -> NeuralNetwork {
    let mut genome = NeuralNetwork::with_neurons(4);
    genome.add_connection(0, 1, real_of(0.5));
    genome.add_connection(0, 2, real_of(0.2));
    genome.add_connection(1, 3, real_of(1.5));
    genome.add_connection(2, 3, real_of(-0.5));
    genome
}

#[test]
fn pick_neuron_wraps_around() {
    let genome = NeuralNetwork::with_neurons(3);
    assert_eq!(genome.pick_neuron(0), 0);
    assert_eq!(genome.pick_neuron(2), 2);
    assert_eq!(genome.pick_neuron(3), 0);
    assert_eq!(genome.pick_neuron(7), 1);
}

#[test]
fn pick_connection_wraps_around() {
    let genome = small_genome();
    assert_eq!(genome.pick_connection(1), (0, 2));
    assert_eq!(genome.pick_connection(4), (0, 1));
    assert_eq!(genome.pick_connection(11), (2, 3));
}

#[test]
fn pick_removable_neuron_skips_the_sacred_ones() {
    let genome = NeuralNetwork::with_neurons(5);
    // 7 % (5 - 2) + 2 = 3
    assert_eq!(genome.pick_removable_neuron(7, 2), 3);
    assert_eq!(genome.pick_removable_neuron(0, 2), 2);
    assert_eq!(genome.pick_removable_neuron(2, 2), 4);
    assert_eq!(genome.pick_removable_neuron(3, 2), 2);
    assert_eq!(genome.pick_removable_neuron(9, 4), 4);
}

#[test]
fn remove_connection_moves_the_last_into_its_place() {
    let mut genome = small_genome();
    genome.remove_connection((0, 1));
    assert_eq!(ids_of_connections(&genome), vec![(2, 3), (0, 2), (1, 3)]);
    assert_eq!(float_of(genome.connections[&(2, 3)].weight), -0.5);
    assert_eq!(ids_of_neurons(&genome), vec![0, 1, 2, 3]);
}

#[test]
fn remove_connection_of_an_unknown_id_changes_nothing() {
    let mut genome = small_genome();
    genome.remove_connection((3, 0));
    assert_eq!(ids_of_connections(&genome), vec![(0, 1), (0, 2), (1, 3), (2, 3)]);
}

#[test]
fn remove_neuron_takes_its_connections_along() {
    let mut genome = small_genome();
    genome.add_connection(1, 1, real_of(1.0));
    genome.remove_neuron(1);
    assert_eq!(ids_of_neurons(&genome), vec![0, 3, 2]);
    let mut left = ids_of_connections(&genome);
    left.sort();
    assert_eq!(left, vec![(0, 2), (2, 3)]);
    assert_eq!(float_of(genome.connections[&(0, 2)].weight), 0.2);
    assert_eq!(float_of(genome.connections[&(2, 3)].weight), -0.5);
    assert!(connections_are_attached(&genome));
}

#[test]
fn remove_neuron_of_an_unknown_id_changes_nothing() {
    let mut genome = small_genome();
    genome.remove_neuron(9);
    assert_eq!(ids_of_neurons(&genome), vec![0, 1, 2, 3]);
    assert_eq!(ids_of_connections(&genome), vec![(0, 1), (0, 2), (1, 3), (2, 3)]);
}

#[test]
fn split_connection_routes_the_signal_through_the_new_neuron() {
    let mut genome = small_genome();
    genome.split_connection((1, 3), 4);
    assert_eq!(ids_of_neurons(&genome), vec![0, 1, 2, 3, 4]);
    assert_eq!(float_of(genome.neurons[&4].bias), 0.0);
    assert_eq!(ids_of_connections(&genome), vec![(0, 1), (0, 2), (2, 3), (1, 4), (4, 3)]);
    assert_eq!(float_of(genome.connections[&(1, 4)].weight), 1.0);
    assert_eq!(float_of(genome.connections[&(4, 3)].weight), 1.5);
    assert!(connections_are_attached(&genome));
}

#[test]
fn split_connection_through_a_known_neuron_resets_its_bias() {
    let mut genome = small_genome();
    genome.set_bias(2, real_of(3.0));
    genome.split_connection((0, 1), 2);
    assert_eq!(ids_of_neurons(&genome), vec![0, 1, 2, 3]);
    assert_eq!(float_of(genome.neurons[&2].bias), 0.0);
    // 0 -> 2 existed and is set to one; 2 -> 1 is new and inherits 0.5.
    assert_eq!(float_of(genome.connections[&(0, 2)].weight), 1.0);
    assert_eq!(float_of(genome.connections[&(2, 1)].weight), 0.5);
    assert!(!genome.connections.contains_key(&(0, 1)));
}

#[test]
fn mutate_add_connection_sets_a_zero_weight_between_known_neurons() {
    for _ in 0..50 {
        let mut genome = NeuralNetwork::with_neurons(3);
        genome.mutate_add_connection();
        assert_eq!(genome.n_connections(), 1);
        let (id, gene) = genome.connections.get_index(0).unwrap();
        assert!(id.0 < 3 && id.1 < 3);
        assert_eq!(float_of(gene.weight), 0.0);
        assert!(connections_are_attached(&genome));
    }
}

#[test]
fn mutate_add_connection_overwrites_with_zero() {
    let mut genome = NeuralNetwork::with_neurons(1);
    genome.add_connection(0, 0, real_of(5.0));
    genome.mutate_add_connection();
    assert_eq!(genome.n_connections(), 1);
    assert_eq!(float_of(genome.connections[&(0, 0)].weight), 0.0);
}

#[test]
fn mutate_add_connection_without_neurons_does_nothing() {
    let mut genome = NeuralNetwork::with_neurons(0);
    genome.mutate_add_connection();
    assert_eq!(genome.n_connections(), 0);
    assert_eq!(genome.n_neurons(), 0);
}

#[test]
fn mutate_add_neuron_without_connections_adds_a_lone_neuron() {
    let mut genome = NeuralNetwork::with_neurons(2);
    genome.mutate_add_neuron(5);
    assert_eq!(ids_of_neurons(&genome), vec![0, 1, 5]);
    assert_eq!(float_of(genome.neurons[&5].bias), 0.0);
    assert_eq!(genome.n_connections(), 0);
}

#[test]
fn mutate_add_neuron_splits_one_connection() {
    for _ in 0..50 {
        let mut genome = small_genome();
        genome.mutate_add_neuron(4);
        assert_eq!(ids_of_neurons(&genome), vec![0, 1, 2, 3, 4]);
        assert_eq!(genome.n_connections(), 5);
        let genes = genome.connections.values();
        let into: Vec<_> = genes.clone().filter(|g| g.out_neuron_id() == 4).collect();
        let out_of: Vec<_> = genes.filter(|g| g.in_neuron_id() == 4).collect();
        assert_eq!(into.len(), 1);
        assert_eq!(out_of.len(), 1);
        assert_eq!(float_of(into[0].weight), 1.0);
        let split = (into[0].in_neuron_id(), out_of[0].out_neuron_id());
        assert!(!genome.connections.contains_key(&split));
        let before = small_genome();
        assert_eq!(out_of[0].weight, before.connections[&split].weight);
        assert!(connections_are_attached(&genome));
    }
}

#[test]
fn mutate_del_neuron_spares_the_sacred_ones() {
    for _ in 0..50 {
        let mut genome = small_genome();
        genome.mutate_del_neuron(2);
        let left = ids_of_neurons(&genome);
        assert_eq!(left.len(), 3);
        assert_eq!(&left[..2], &[0, 1]);
        assert!(connections_are_attached(&genome));
    }
}

#[test]
fn mutate_del_neuron_with_only_sacred_neurons_does_nothing() {
    let mut genome = small_genome();
    genome.mutate_del_neuron(4);
    assert_eq!(ids_of_neurons(&genome), vec![0, 1, 2, 3]);
    assert_eq!(genome.n_connections(), 4);
    genome.mutate_del_neuron(9);
    assert_eq!(ids_of_neurons(&genome), vec![0, 1, 2, 3]);
}

#[test]
fn mutate_del_conn_removes_one_connection() {
    let mut genome = small_genome();
    genome.mutate_del_conn();
    assert_eq!(genome.n_connections(), 3);
    assert_eq!(genome.n_neurons(), 4);
    assert!(connections_are_attached(&genome));
}

#[test]
fn mutate_del_conn_without_connections_does_nothing() {
    let mut genome = NeuralNetwork::with_neurons(2);
    genome.mutate_del_conn();
    assert_eq!(genome.n_connections(), 0);
    assert_eq!(genome.n_neurons(), 2);
}

#[test]
fn mutate_with_nothing_planned_still_connects_an_unconnected_genome() {
    let nothing = Mutations {
        add_connection: false,
        add_neuron: false,
        del_neuron: false,
        del_connection: false,
    };
    let mut genome = NeuralNetwork::with_neurons(2);
    let mut innovation_id = 2;
    genome.mutate(&mut innovation_id, 2, nothing);
    assert_eq!(genome.n_connections(), 1);
    assert_eq!(innovation_id, 2);

    let mut connected = small_genome();
    connected.mutate(&mut innovation_id, 2, nothing);
    assert_eq!(ids_of_connections(&connected), ids_of_connections(&small_genome()));
    assert_eq!(connected.neurons, small_genome().neurons);
}

#[test]
fn mutate_uses_up_the_innovation_id_when_it_adds_a_neuron() {
    let plan = Mutations {
        add_connection: false,
        add_neuron: true,
        del_neuron: false,
        del_connection: false,
    };
    let mut genome = small_genome();
    let mut innovation_id = 4;
    genome.mutate(&mut innovation_id, 2, plan);
    assert_eq!(innovation_id, 5);
    assert!(genome.has_neuron(4));
    genome.mutate(&mut innovation_id, 2, plan);
    assert_eq!(innovation_id, 6);
    assert!(genome.has_neuron(5));
    assert_eq!(genome.n_neurons(), 6);
}

#[test]
fn any_sequence_of_mutations_keeps_connections_attached_and_sacred_neurons_first() {
    let mut genome = NeuralNetwork::with_neurons(3);
    let mut innovation_id = 3;
    for round in 0..400usize {
        let plan = Mutations {
            add_connection: round % 2 == 0,
            add_neuron: round % 3 == 0,
            del_neuron: round % 5 == 0,
            del_connection: round % 7 == 0,
        };
        let before = innovation_id;
        genome.mutate(&mut innovation_id, 3, plan);
        assert_eq!(innovation_id, before + if plan.add_neuron { 1 } else { 0 });
        assert!(connections_are_attached(&genome));
        assert_eq!(&ids_of_neurons(&genome)[..3], &[0, 1, 2]);
        for (id, gene) in genome.neurons.iter() {
            assert_eq!(gene.id(), *id);
        }
    }
}

#[test]
fn set_weight_keeps_the_connection_in_place() {
    let mut genome = small_genome();
    genome.set_weight((0, 2), real_of(9.0));
    assert_eq!(ids_of_connections(&genome), vec![(0, 1), (0, 2), (1, 3), (2, 3)]);
    assert_eq!(float_of(genome.connections[&(0, 2)].weight), 9.0);
    assert_eq!(float_of(genome.connections[&(0, 1)].weight), 0.5);
    assert_eq!(genome.connections[&(0, 2)].id(), (0, 2));
}

#[test]
fn set_bias_changes_one_neuron_only() {
    let mut genome = small_genome();
    genome.set_bias(3, real_of(-4.0));
    assert_eq!(ids_of_neurons(&genome), vec![0, 1, 2, 3]);
    assert_eq!(float_of(genome.neurons[&3].bias), -4.0);
    assert_eq!(float_of(genome.neurons[&2].bias), 0.0);
    assert_eq!(genome.neurons[&3].id(), 3);
    assert_eq!(genome.n_connections(), 4);
}

#[test]
fn add_drawn_connection_joins_the_neurons_drawn() {
    let mut genome = NeuralNetwork::with_neurons(3);
    genome.add_drawn_connection(5, 7);
    assert_eq!(ids_of_connections(&genome), vec![(2, 1)]);
    assert_eq!(float_of(genome.connections[&(2, 1)].weight), 0.0);
    genome.add_drawn_connection(3, 3);
    assert_eq!(ids_of_connections(&genome), vec![(2, 1), (0, 0)]);

    let mut empty = NeuralNetwork::with_neurons(0);
    empty.add_drawn_connection(1, 2);
    assert_eq!(empty.n_connections(), 0);
}

#[test]
fn add_drawn_neuron_splits_the_connection_drawn() {
    let mut genome = small_genome();
    genome.add_drawn_neuron(4, 6);
    // 6 % 4 = 2: the connection 1 -> 3 with weight 1.5.
    assert_eq!(ids_of_connections(&genome), vec![(0, 1), (0, 2), (2, 3), (1, 4), (4, 3)]);
    assert_eq!(float_of(genome.connections[&(1, 4)].weight), 1.0);
    assert_eq!(float_of(genome.connections[&(4, 3)].weight), 1.5);
    assert_eq!(ids_of_neurons(&genome), vec![0, 1, 2, 3, 4]);
}

#[test]
fn remove_drawn_neuron_removes_the_neuron_drawn() {
    let mut genome = small_genome();
    // 5 % (4 - 2) + 2 = 3
    genome.remove_drawn_neuron(2, 5);
    assert_eq!(ids_of_neurons(&genome), vec![0, 1, 2]);
    assert_eq!(ids_of_connections(&genome), vec![(0, 1), (0, 2)]);

    let mut sacred = small_genome();
    sacred.remove_drawn_neuron(4, 5);
    assert_eq!(ids_of_neurons(&sacred), vec![0, 1, 2, 3]);
}

#[test]
fn remove_drawn_connection_removes_the_connection_drawn() {
    let mut genome = small_genome();
    genome.remove_drawn_connection(9);
    // 9 % 4 = 1: the connection 0 -> 2; the last one takes its place.
    assert_eq!(ids_of_connections(&genome), vec![(0, 1), (2, 3), (1, 3)]);

    let mut bare = NeuralNetwork::with_neurons(2);
    bare.remove_drawn_connection(9);
    assert_eq!(bare.n_connections(), 0);
}

#[test]
fn mutate_with_applies_the_steps_in_order() {
    let all = Mutations {
        add_connection: true,
        add_neuron: true,
        del_neuron: true,
        del_connection: true,
    };
    let draws = Draws { in_neuron: 3, out_neuron: 0, split: 4, neuron: 2, connection: 1 };
    let mut genome = small_genome();
    let mut innovation_id = 4;
    genome.mutate_with(&mut innovation_id, 2, all, draws);
    assert_eq!(innovation_id, 5);
    // Added 3 -> 0; split it (4 % 5 = 4) through neuron 4: 3 -> 4, 4 -> 0;
    // removed the neuron at place 2 % 3 + 2 = 4, which is neuron 4, with both
    // of its connections; removed the connection at place 1 % 4 = 1.
    assert_eq!(ids_of_neurons(&genome), vec![0, 1, 2, 3]);
    assert_eq!(ids_of_connections(&genome), vec![(0, 1), (2, 3), (1, 3)]);
    assert!(connections_are_attached(&genome));
}

#[test]
fn mutate_with_follows_the_plan() {
    let draws = Draws { in_neuron: 0, out_neuron: 1, split: 0, neuron: 0, connection: 0 };
    let only_connection = Mutations {
        add_connection: true,
        add_neuron: false,
        del_neuron: false,
        del_connection: false,
    };
    let mut genome = NeuralNetwork::with_neurons(3);
    let mut innovation_id = 3;
    genome.mutate_with(&mut innovation_id, 3, only_connection, draws);
    assert_eq!(innovation_id, 3);
    assert_eq!(ids_of_connections(&genome), vec![(0, 1)]);
    assert_eq!(ids_of_neurons(&genome), vec![0, 1, 2]);

    let only_removals = Mutations {
        add_connection: false,
        add_neuron: false,
        del_neuron: true,
        del_connection: true,
    };
    genome.mutate_with(&mut innovation_id, 3, only_removals, draws);
    assert_eq!(innovation_id, 3);
    assert_eq!(ids_of_neurons(&genome), vec![0, 1, 2]);
    assert_eq!(genome.n_connections(), 0);
}
