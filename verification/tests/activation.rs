use rustneat::nn::ctrnn::{filled, Ctrnn};
use rustneat::nn::gene::Real;
use rustneat::nn::NeuralNetwork;

fn r(x: f64) -> Real {
    Real::from_bits(x.to_bits())
}

fn f(x: Real) -> f64 {
    f64::from_bits(x.to_bits())
}

fn reals(values: &[f64]) -> Vec<Real> {
    values.iter().map(|x| r(*x)).collect()
}

fn floats(values: &[Real]) -> Vec<f64> {
    values.iter().map(|x| f(*x)).collect()
}

fn sigmoid(y: f64) -> f64 {
    1.0 / (1.0 + (-y).exp())
}

/// Euler integration of the network from rest, on the vectors that the
/// library lays out.
fn activate(nn: &Ctrnn, sensors: Vec<f64>, outputs: &mut Vec<f64>) {
    let n = nn.n_neurons();
    let input = floats(&nn.sensor_input(&reals(&sensors)));
    let theta = floats(&nn.theta);
    let tau = floats(&nn.tau);
    let wij = floats(&nn.wij);
    let delta_t = f(nn.delta_t);
    let mut y = vec![0.0; n];
    for _ in 0..nn.steps {
        let activations: Vec<f64> = (0..n).map(|j| sigmoid(y[j] - theta[j])).collect();
        let mut next = vec![0.0; n];
        for i in 0..n {
            let mut sum = 0.0;
            for j in 0..n {
                sum += wij[i * n + j] * activations[j];
            }
            next[i] = y[i] + (1.0 / tau[i]) * delta_t * (sum - y[i] + input[i]);
        }
        y = next;
    }
    let mut written = reals(outputs);
    Ctrnn::write_outputs(&reals(&y), &mut written);
    *outputs = floats(&written);
}

#[test]
fn should_propagate_signal_without_hidden_layers() {
    let mut organism = NeuralNetwork::with_neurons(2);
    organism.add_connection(0, 1, r(5.0));
    let nn = organism.make_network();
    let sensors = vec![7.5];
    let mut output = vec![0.0];
    activate(&nn, sensors, &mut output);
    assert!(output[0] > 0.9, "{:?} is not bigger than 0.9", output[0]);

    let mut organism = NeuralNetwork::with_neurons(2);
    organism.add_connection(0, 1, r(-2.0));
    let nn = organism.make_network();
    let sensors = vec![1.0];
    let mut output = vec![0.0];
    activate(&nn, sensors, &mut output);
    assert!(output[0] < 0.1, "{:?} is not smaller than 0.1", output[0]);
}

#[test]
fn should_propagate_signal_over_hidden_layers() {
    let mut organism = NeuralNetwork::with_neurons(3);
    organism.add_connection(0, 1, r(0.0));
    organism.add_connection(0, 2, r(5.0));
    organism.add_connection(2, 1, r(5.0));
    let nn = organism.make_network();
    let sensors = vec![0.0];
    let mut output = vec![0.0];
    activate(&nn, sensors, &mut output);
    assert!(output[0] > 0.9, "{:?} is not bigger than 0.9", output[0]);
}

#[test]
fn should_work_with_cyclic_networks() {
    let mut organism = NeuralNetwork::with_neurons(3);
    organism.add_connection(0, 1, r(2.0));
    organism.add_connection(1, 2, r(2.0));
    organism.add_connection(2, 1, r(2.0));
    let nn = organism.make_network();
    let mut output = vec![0.0];
    activate(&nn, vec![1.0], &mut output);
    assert!(output[0] > 0.9, "{:?} is not bigger than 0.9", output[0]);

    let mut organism = NeuralNetwork::with_neurons(3);
    organism.add_connection(0, 1, r(-2.0));
    organism.add_connection(1, 2, r(-2.0));
    organism.add_connection(2, 1, r(-2.0));
    let nn = organism.make_network();
    let mut output = vec![0.0];
    activate(&nn, vec![1.0], &mut output);
    assert!(output[0] < 0.1, "{:?} is not smaller than 0.1", output[0]);
}

#[test]
fn activate_organims_sensor_without_enough_neurons_should_ignore_it() {
    let mut organism = NeuralNetwork::with_neurons(2);
    organism.add_connection(0, 1, r(1.0));
    let nn = organism.make_network();
    let sensors = vec![0.0, 0.0, 0.0];
    let mut output = vec![0.0];
    activate(&nn, sensors, &mut output);
}

#[test]
fn should_allow_multiple_output() {
    let mut organism = NeuralNetwork::with_neurons(2);
    organism.add_connection(0, 1, r(1.0));
    let nn = organism.make_network();
    let sensors = vec![0.0];
    let mut output = vec![0.0, 0.0];
    activate(&nn, sensors, &mut output);
}

#[test]
fn should_not_raise_exception_if_less_neurons_than_required() {
    let mut organism = NeuralNetwork::with_neurons(2);
    organism.add_connection(0, 1, r(1.0));
    let nn = organism.make_network();
    let input = vec![0.0; 3];
    let mut output = vec![0.0; 3];
    activate(&nn, input, &mut output);
}

#[test]
fn make_network_sets_unit_time_constants_and_ten_unit_steps() {
    let mut organism = NeuralNetwork::with_neurons(3);
    organism.add_connection(0, 2, r(1.5));
    let nn = organism.make_network();
    assert_eq!(nn.n_neurons(), 3);
    assert_eq!(floats(&nn.tau), vec![1.0, 1.0, 1.0]);
    assert_eq!(f(nn.delta_t), 1.0);
    assert_eq!(nn.steps, 10);
    assert_eq!(floats(&nn.theta), vec![0.0, 0.0, 0.0]);
    assert_eq!(
        floats(&nn.wij),
        vec![0.0, 0.0, 0.0, 0.0, 0.0, 0.0, 1.5, 0.0, 0.0]
    );
}

#[test]
fn make_network_orders_neurons_by_id() {
    let mut organism = NeuralNetwork::with_neurons(4);
    organism.set_bias(1, r(0.1));
    organism.set_bias(2, r(0.2));
    organism.set_bias(3, r(0.3));
    organism.add_connection(1, 3, r(7.0));
    organism.add_connection(3, 2, r(8.0));
    // Removing neuron 0 moves neuron 3 into the first place: order 3, 1, 2.
    organism.remove_neuron(0);
    assert_eq!(organism.neurons.keys().cloned().collect::<Vec<_>>(), vec![3, 1, 2]);
    assert_eq!(floats(&organism.get_bias()), vec![0.3, 0.1, 0.2]);

    let nn = organism.make_network();
    assert_eq!(floats(&nn.theta), vec![0.1, 0.2, 0.3]);
    // Places by id: 1, 2, 3. Row is the destination, column the source.
    assert_eq!(
        floats(&nn.wij),
        vec![0.0, 0.0, 0.0, 0.0, 0.0, 8.0, 7.0, 0.0, 0.0]
    );
    // The genome itself is left in its own order.
    assert_eq!(organism.neurons.keys().cloned().collect::<Vec<_>>(), vec![3, 1, 2]);
}

#[test]
fn make_network_of_an_empty_genome_is_empty() {
    let nn = NeuralNetwork::with_neurons(0).make_network();
    assert_eq!(nn.n_neurons(), 0);
    assert!(nn.wij.is_empty());
    let mut output = vec![4.0];
    activate(&nn, vec![1.0], &mut output);
    assert_eq!(output, vec![4.0]);
}

#[test]
fn sensor_input_pads_with_zero_and_drops_the_surplus() {
    let nn = NeuralNetwork::with_neurons(3).make_network();
    assert_eq!(floats(&nn.sensor_input(&reals(&[7.5]))), vec![7.5, 0.0, 0.0]);
    assert_eq!(
        floats(&nn.sensor_input(&reals(&[1.0, 2.0, 3.0, 4.0]))),
        vec![1.0, 2.0, 3.0]
    );
    assert_eq!(floats(&nn.sensor_input(&reals(&[]))), vec![0.0, 0.0, 0.0]);
}

#[test]
fn write_outputs_reads_the_last_entries_of_the_state() {
    let y = reals(&[1.0, 2.0, 3.0, 4.0]);
    let mut outputs = reals(&[0.0, 0.0]);
    Ctrnn::write_outputs(&y, &mut outputs);
    assert_eq!(floats(&outputs), vec![3.0, 4.0]);

    let mut one = reals(&[9.0]);
    Ctrnn::write_outputs(&y, &mut one);
    assert_eq!(floats(&one), vec![4.0]);

    let mut none: Vec<Real> = Vec::new();
    Ctrnn::write_outputs(&y, &mut none);
    assert!(none.is_empty());
}

#[test]
fn write_outputs_leaves_places_beyond_the_state_alone() {
    let y = reals(&[1.0, 2.0]);
    let mut outputs = reals(&[7.0, 8.0, 9.0]);
    Ctrnn::write_outputs(&y, &mut outputs);
    assert_eq!(floats(&outputs), vec![1.0, 2.0, 9.0]);
}

#[test]
fn filled_repeats_one_value() {
    assert_eq!(floats(&filled(r(1.0), 3)), vec![1.0, 1.0, 1.0]);
    assert!(filled(r(1.0), 0).is_empty());
}

#[test]
fn new_keeps_what_it_is_given() {
    let nn = Ctrnn::new(reals(&[0.5]), reals(&[2.0]), reals(&[3.0]), r(0.25), 4);
    assert_eq!(floats(&nn.theta), vec![0.5]);
    assert_eq!(floats(&nn.tau), vec![2.0]);
    assert_eq!(floats(&nn.wij), vec![3.0]);
    assert_eq!(f(nn.delta_t), 0.25);
    assert_eq!(nn.steps, 4);
    assert_eq!(nn.n_neurons(), 1);
}
