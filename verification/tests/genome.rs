use rustneat::nn::gene::{ConnectionGene, NeuronGene, Real};
use rustneat::nn::NeuralNetwork;

fn num(x: f64) -> Real {
    Real::from_bits(x.to_bits())
}

fn val(x: Real) -> f64 {
    f64::from_bits(x.to_bits())
}

fn neuron_ids(genome: &NeuralNetwork) -> Vec<usize> {
    genome.neurons.keys().cloned().collect()
}

fn connection_ids(genome: &NeuralNetwork) -> Vec<(usize, usize)> {
    genome.connections.keys().cloned().collect()
}

#[test]
fn mutation_add_connection() {
    let mut genome = NeuralNetwork::with_neurons(3);
    genome.add_connection(1, 2, num(0.0));

    assert!(genome.connections[&(1, 2)].in_neuron_id() == 1);
    assert!(genome.connections[&(1, 2)].out_neuron_id() == 2);
}

#[test]
fn mutation_add_neuron() {
    let mut genome = NeuralNetwork::with_neurons(2);
    genome.add_connection(0, 1, num(1.0));
    genome.mutate_add_neuron(2);
    let connections = genome.connections.values().collect::<Vec<_>>();
    assert_eq!(connections.len(), 2);
    assert!(connections[0].in_neuron_id() == 0);
    assert!(connections[0].out_neuron_id() == 2);
    assert!(connections[1].in_neuron_id() == 2);
    assert!(connections[1].out_neuron_id() == 1);
}

#[test]
fn should_be_able_to_get_correct_matrix_representation_of_connections() {
    let mut organism = NeuralNetwork::with_neurons(3);
    organism.add_connection(0, 1, num(1.0));
    organism.add_connection(1, 2, num(0.5));
    organism.add_connection(2, 1, num(0.5));
    organism.add_connection(2, 2, num(0.75));
    organism.add_connection(1, 0, num(1.0));
    let weights: Vec<f64> = organism.get_weights().into_iter().map(val).collect();
    assert_eq!(weights, vec![0.0, 1.0, 0.0, 1.0, 0.0, 0.5, 0.0, 0.5, 0.75]);
}

#[test]
fn zero_and_one_are_the_numbers_they_name() {
    assert_eq!(val(Real::zero()), 0.0);
    assert!(val(Real::zero()).is_sign_positive());
    assert_eq!(val(Real::one()), 1.0);
    assert_eq!(Real::one().to_bits(), 1.0f64.to_bits());
    assert_eq!(val(num(-2.5)), -2.5);
}

#[test]
fn genes_report_their_ids() {
    let neuron = NeuronGene::new(num(0.25), 7);
    assert_eq!(neuron.id(), 7);
    assert_eq!(val(neuron.bias), 0.25);
    let connection = ConnectionGene::new(3, 4, num(-1.5));
    assert_eq!(connection.id(), (3, 4));
    assert_eq!(connection.in_neuron_id(), 3);
    assert_eq!(connection.out_neuron_id(), 4);
    assert_eq!(val(connection.weight), -1.5);
}

#[test]
fn default_genome_has_neuron_zero() {
    let genome = NeuralNetwork::default();
    assert_eq!(genome.n_neurons(), 1);
    assert_eq!(genome.n_connections(), 0);
    assert_eq!(neuron_ids(&genome), vec![0]);
    assert_eq!(val(genome.neurons[&0].bias), 0.0);
    assert_eq!(genome.neurons[&0].id(), 0);
}

#[test]
fn with_neurons_numbers_them_from_zero() {
    let genome = NeuralNetwork::with_neurons(4);
    assert_eq!(genome.n_neurons(), 4);
    assert_eq!(genome.n_connections(), 0);
    assert_eq!(neuron_ids(&genome), vec![0, 1, 2, 3]);
    let biases: Vec<f64> = genome.get_bias().into_iter().map(val).collect();
    assert_eq!(biases, vec![0.0; 4]);
    for (id, gene) in genome.neurons.iter() {
        assert_eq!(gene.id(), *id);
    }
}

#[test]
fn with_no_neurons_is_empty() {
    let genome = NeuralNetwork::with_neurons(0);
    assert_eq!(genome.n_neurons(), 0);
    assert_eq!(genome.n_connections(), 0);
    assert!(genome.get_weights().is_empty());
    assert!(genome.get_bias().is_empty());
    assert!(!genome.has_neuron(0));
}

#[test]
fn has_neuron_tells_known_from_unknown() {
    let genome = NeuralNetwork::with_neurons(2);
    assert!(genome.has_neuron(0));
    assert!(genome.has_neuron(1));
    assert!(!genome.has_neuron(2));
}

#[test]
fn bias_and_weight_look_genes_up() {
    let mut genome = NeuralNetwork::with_neurons(3);
    genome.set_bias(1, num(0.5));
    genome.add_connection(2, 0, num(-3.0));
    assert_eq!(genome.bias(1).map(val), Some(0.5));
    assert_eq!(genome.bias(0).map(val), Some(0.0));
    assert_eq!(genome.bias(9), None);
    assert_eq!(genome.weight(2, 0).map(val), Some(-3.0));
    assert_eq!(genome.weight(0, 2), None);
}

#[test]
fn set_bias_keeps_the_neuron_in_place() {
    let mut genome = NeuralNetwork::with_neurons(3);
    genome.set_bias(1, num(2.0));
    assert_eq!(neuron_ids(&genome), vec![0, 1, 2]);
    let biases: Vec<f64> = genome.get_bias().into_iter().map(val).collect();
    assert_eq!(biases, vec![0.0, 2.0, 0.0]);
}

#[test]
fn add_connection_twice_keeps_the_later_weight() {
    let mut twice = NeuralNetwork::with_neurons(3);
    twice.add_connection(0, 1, num(1.0));
    twice.add_connection(1, 2, num(4.0));
    twice.add_connection(0, 1, num(7.0));

    let mut once = NeuralNetwork::with_neurons(3);
    once.add_connection(0, 1, num(7.0));
    once.add_connection(1, 2, num(4.0));

    assert_eq!(twice.n_connections(), 2);
    assert_eq!(connection_ids(&twice), connection_ids(&once));
    assert_eq!(twice.connections, once.connections);
    assert_eq!(val(twice.connections[&(0, 1)].weight), 7.0);
}

#[test]
fn add_connection_allows_self_loops() {
    let mut genome = NeuralNetwork::with_neurons(1);
    genome.add_connection(0, 0, num(0.5));
    assert_eq!(connection_ids(&genome), vec![(0, 0)]);
    assert_eq!(genome.connections[&(0, 0)].id(), (0, 0));
}

#[test]
fn clone_copies_every_gene() {
    let mut genome = NeuralNetwork::with_neurons(3);
    genome.set_bias(2, num(1.5));
    genome.add_connection(0, 2, num(0.25));
    let copy = genome.clone();
    assert_eq!(copy.neurons, genome.neurons);
    assert_eq!(copy.connections, genome.connections);
    assert_eq!(neuron_ids(&copy), vec![0, 1, 2]);
    assert_eq!(connection_ids(&copy), vec![(0, 2)]);
    genome.add_connection(1, 1, num(1.0));
    assert_eq!(copy.n_connections(), 1);
}

#[test]
fn get_weights_follows_the_genomes_own_order() {
    let mut genome = NeuralNetwork::with_neurons(3);
    genome.add_connection(1, 2, num(9.0));
    // Removing neuron 0 moves neuron 2 into the first place: order 2, 1.
    genome.remove_neuron(0);
    assert_eq!(neuron_ids(&genome), vec![2, 1]);
    let weights: Vec<f64> = genome.get_weights().into_iter().map(val).collect();
    // Row is the destination (neuron 2, place 0), column the source (neuron 1, place 1).
    assert_eq!(weights, vec![0.0, 9.0, 0.0, 0.0]);
}

#[test]
fn from_genes_keeps_the_order_of_the_genes() {
    let neurons = vec![
        NeuronGene::new(num(0.5), 4),
        NeuronGene::new(num(0.0), 0),
        NeuronGene::new(num(-1.0), 2),
    ];
    let connections = vec![
        ConnectionGene::new(2, 4, num(3.0)),
        ConnectionGene::new(0, 0, num(1.0)),
    ];
    let genome = NeuralNetwork::from_genes(&neurons, &connections).unwrap();
    assert_eq!(neuron_ids(&genome), vec![4, 0, 2]);
    assert_eq!(connection_ids(&genome), vec![(2, 4), (0, 0)]);
    assert_eq!(genome.neurons[&2], neurons[2]);
    assert_eq!(genome.connections[&(2, 4)], connections[0]);
    assert!(genome.is_well_formed());
}

#[test]
fn from_genes_refuses_a_repeated_neuron_id() {
    let neurons = vec![NeuronGene::new(num(0.0), 1), NeuronGene::new(num(1.0), 1)];
    assert!(NeuralNetwork::from_genes(&neurons, &vec![]).is_none());
}

#[test]
fn from_genes_refuses_a_repeated_connection_id() {
    let neurons = vec![NeuronGene::new(num(0.0), 0), NeuronGene::new(num(0.0), 1)];
    let connections = vec![
        ConnectionGene::new(0, 1, num(1.0)),
        ConnectionGene::new(0, 1, num(2.0)),
    ];
    assert!(NeuralNetwork::from_genes(&neurons, &connections).is_none());
}

#[test]
fn from_genes_refuses_a_dangling_connection() {
    let neurons = vec![NeuronGene::new(num(0.0), 0), NeuronGene::new(num(0.0), 1)];
    let to_unknown = vec![ConnectionGene::new(0, 2, num(1.0))];
    assert!(NeuralNetwork::from_genes(&neurons, &to_unknown).is_none());
    let from_unknown = vec![ConnectionGene::new(2, 0, num(1.0))];
    assert!(NeuralNetwork::from_genes(&neurons, &from_unknown).is_none());
    let self_loop = vec![ConnectionGene::new(0, 0, num(1.0))];
    assert!(NeuralNetwork::from_genes(&vec![], &self_loop).is_none());
    let known = vec![ConnectionGene::new(1, 0, num(1.0))];
    assert!(NeuralNetwork::from_genes(&neurons, &known).is_some());
}

#[test]
fn from_no_genes_comes_the_empty_genome() {
    let genome = NeuralNetwork::from_genes(&vec![], &vec![]).unwrap();
    assert_eq!(genome.n_neurons(), 0);
    assert_eq!(genome.n_connections(), 0);
}

#[test]
fn is_well_formed_accepts_what_the_library_builds() {
    assert!(NeuralNetwork::default().is_well_formed());
    assert!(NeuralNetwork::with_neurons(0).is_well_formed());
    let mut genome = NeuralNetwork::with_neurons(3);
    genome.add_connection(0, 1, num(1.0));
    genome.add_connection(2, 2, num(1.0));
    genome.remove_neuron(0);
    assert!(genome.is_well_formed());
}

#[test]
fn is_well_formed_finds_a_dangling_connection() {
    let mut genome = NeuralNetwork::with_neurons(2);
    genome.connections.insert((0, 5), ConnectionGene::new(0, 5, num(1.0)));
    assert!(!genome.is_well_formed());
    let mut genome = NeuralNetwork::with_neurons(2);
    genome.connections.insert((5, 0), ConnectionGene::new(5, 0, num(1.0)));
    assert!(!genome.is_well_formed());
}

#[test]
fn is_well_formed_finds_a_misfiled_gene() {
    let mut genome = NeuralNetwork::with_neurons(2);
    genome.neurons.insert(5, NeuronGene::new(num(0.0), 6));
    assert!(!genome.is_well_formed());
    let mut genome = NeuralNetwork::with_neurons(2);
    genome.connections.insert((0, 1), ConnectionGene::new(1, 0, num(1.0)));
    assert!(!genome.is_well_formed());
    let mut genome = NeuralNetwork::with_neurons(2);
    genome.connections.insert((0, 1), ConnectionGene::new(0, 0, num(1.0)));
    assert!(!genome.is_well_formed());
}

#[test]
fn same_genes_compares_ids_parameters_and_order() {
    let mut a = NeuralNetwork::with_neurons(3);
    a.add_connection(0, 1, num(1.0));
    a.add_connection(1, 2, num(2.0));
    let mut b = NeuralNetwork::with_neurons(3);
    b.add_connection(0, 1, num(1.0));
    b.add_connection(1, 2, num(2.0));
    assert!(a.same_genes(&b));
    assert!(a.same_genes(&a.clone()));

    let mut other_weight = b.clone();
    other_weight.add_connection(1, 2, num(2.5));
    assert!(!a.same_genes(&other_weight));

    let mut other_bias = b.clone();
    other_bias.set_bias(0, num(0.1));
    assert!(!a.same_genes(&other_bias));

    let mut other_order = NeuralNetwork::with_neurons(3);
    other_order.add_connection(1, 2, num(2.0));
    other_order.add_connection(0, 1, num(1.0));
    assert!(!a.same_genes(&other_order));

    let mut more = b.clone();
    more.add_connection(2, 2, num(0.0));
    assert!(!a.same_genes(&more));
    assert!(!a.same_genes(&NeuralNetwork::with_neurons(4)));

    let mut other_id = NeuralNetwork::with_neurons(3);
    other_id.add_connection(0, 1, num(1.0));
    other_id.add_connection(2, 1, num(2.0));
    assert!(!a.same_genes(&other_id));
}
