//! From genome to network: the bias vector and the weight matrix.

use crate::nn::NeuralNetwork;
use crate::nn::ctrnn::{filled, repeated, Ctrnn};
use crate::nn::entries::{distinct_keys, has_key, index_of, inserted, lemma_inserted, value_of};
use crate::nn::gene::{ConnectionGene, ConnectionId, NeuronGene, NeuronId, Real};
use crate::nn::lookup::find_neuron;
use crate::nn::model::GenomeView;
use crate::nn::store::{
    connection_entries, connections_at, connections_len, neuron_entries, neurons_at, neurons_clone,
    neurons_len, neurons_sort_keys, ConnectionMap, NeuronMap,
};
use vstd::arithmetic::div_mod::{lemma_fundamental_div_mod, lemma_fundamental_div_mod_converse};
use vstd::pervasive::unreached;
use vstd::prelude::*;

verus! {

/// The weight in one cell of the matrix over `neurons`: cell `r * n + c`
/// holds the weight of the connection from the neuron at place `c` to the
/// neuron at place `r`, or zero where the genome has no such connection.
pub open spec fn cell_weight(
    neurons: Seq<(NeuronId, NeuronGene)>,
    connections: Seq<(ConnectionId, ConnectionGene)>,
    cell: int,
) -> Real {
    let n = neurons.len() as int;
    match value_of(connections, (neurons[cell % n].0, neurons[cell / n].0)) {
        Some(gene) => gene.weight,
        None => Real::zero(),
    }
}

/// The weights of `connections` as a square matrix over `neurons`, row by
/// row: row is the place of the destination neuron, column that of the
/// source.
pub open spec fn weight_matrix(
    neurons: Seq<(NeuronId, NeuronGene)>,
    connections: Seq<(ConnectionId, ConnectionGene)>,
) -> Seq<Real> {
    Seq::new(
        (neurons.len() * neurons.len()) as nat,
        |cell: int| cell_weight(neurons, connections, cell),
    )
}

/// The biases of `neurons`, in order.
pub open spec fn biases(neurons: Seq<(NeuronId, NeuronGene)>) -> Seq<Real> {
    Seq::new(neurons.len(), |i: int| neurons[i].1.bias)
}

/// `order` holds the genes of `neurons`, arranged by ascending id.
pub open spec fn sorted_by_id(
    order: Seq<(NeuronId, NeuronGene)>,
    neurons: Seq<(NeuronId, NeuronGene)>,
) -> bool {
    &&& order.to_multiset() == neurons.to_multiset()
    &&& forall|i: int, j: int|
        0 <= i < j < order.len() ==> (#[trigger] order[i]).0 < (#[trigger] order[j]).0
}

/// Row `r`, column `c` of a square matrix of side `n` is cell `r * n + c`,
/// and no other place of the matrix is.
proof fn lemma_cell(n: int, r: int, c: int)
    requires
        0 <= r < n,
        0 <= c < n,
    ensures
        0 <= r * n + c < n * n,
        (r * n + c) / n == r,
        (r * n + c) % n == c,
{
    assert(0 <= r * n + c < n * n) by (nonlinear_arith)
        requires
            0 <= r < n,
            0 <= c < n,
    ;
    lemma_fundamental_div_mod_converse(r * n + c, n, r, c);
}

/// Every cell of a square matrix of side `n` lies in one row and one column.
proof fn lemma_cell_place(n: int, cell: int)
    requires
        0 <= n,
        0 <= cell < n * n,
    ensures
        0 <= cell / n < n,
        0 <= cell % n < n,
        cell == (cell / n) * n + cell % n,
{
    assert(n > 0) by (nonlinear_arith)
        requires
            0 <= n,
            0 <= cell < n * n,
    ;
    lemma_fundamental_div_mod(cell, n);
    assert(0 <= cell % n < n) by (nonlinear_arith)
        requires
            n > 0,
    ;
    assert(0 <= cell / n < n) by (nonlinear_arith)
        requires
            0 <= cell < n * n,
            n > 0,
            cell == n * (cell / n) + cell % n,
            0 <= cell % n < n,
    ;
    assert(n * (cell / n) == (cell / n) * n) by (nonlinear_arith);
}

/// An id-sorted arrangement has the ids and genes of the genome, each once.
pub proof fn lemma_sorted_by_id(
    order: Seq<(NeuronId, NeuronGene)>,
    neurons: Seq<(NeuronId, NeuronGene)>,
)
    requires
        sorted_by_id(order, neurons),
    ensures
        order.len() == neurons.len(),
        distinct_keys(order),
        forall|e: (NeuronId, NeuronGene)| order.contains(e) <==> neurons.contains(e),
        forall|k: NeuronId| has_key(order, k) <==> has_key(neurons, k),
{
    order.to_multiset_ensures();
    neurons.to_multiset_ensures();
    assert forall|e: (NeuronId, NeuronGene)| order.contains(e) <==> neurons.contains(e) by {
        assert(order.to_multiset().count(e) == neurons.to_multiset().count(e));
    }
    assert forall|k: NeuronId| has_key(order, k) <==> has_key(neurons, k) by {
        if has_key(order, k) {
            let i = index_of(order, k);
            assert(order.contains(order[i]));
            let j = choose|j: int| 0 <= j < neurons.len() && neurons[j] == order[i];
            assert(neurons[j].0 == k);
        }
        if has_key(neurons, k) {
            let i = index_of(neurons, k);
            assert(neurons.contains(neurons[i]));
            let j = choose|j: int| 0 <= j < order.len() && order[j] == neurons[i];
            assert(order[j].0 == k);
        }
    }
}

/// A genome has one id-sorted arrangement only.
pub proof fn lemma_sorted_by_id_unique(
    first: Seq<(NeuronId, NeuronGene)>,
    second: Seq<(NeuronId, NeuronGene)>,
    neurons: Seq<(NeuronId, NeuronGene)>,
)
    requires
        sorted_by_id(first, neurons),
        sorted_by_id(second, neurons),
    ensures
        first == second,
{
    lemma_sorted_by_id(first, neurons);
    lemma_sorted_by_id(second, neurons);
    lemma_ascending_same_entries(first, second);
}

/// Two arrangements by strictly ascending id that hold the same entries are
/// one and the same.
proof fn lemma_ascending_same_entries(
    first: Seq<(NeuronId, NeuronGene)>,
    second: Seq<(NeuronId, NeuronGene)>,
)
    requires
        forall|i: int, j: int|
            0 <= i < j < first.len() ==> (#[trigger] first[i]).0 < (#[trigger] first[j]).0,
        forall|i: int, j: int|
            0 <= i < j < second.len() ==> (#[trigger] second[i]).0 < (#[trigger] second[j]).0,
        forall|e: (NeuronId, NeuronGene)| first.contains(e) <==> second.contains(e),
    ensures
        first == second,
    decreases first.len(),
{
    if first.len() == 0 {
        if second.len() > 0 {
            assert(second.contains(second[0]));
        }
        assert(first =~= second);
    } else {
        let e1 = first.last();
        assert(first.contains(first[first.len() - 1]));
        let j = choose|j: int| 0 <= j < second.len() && second[j] == e1;
        let e2 = second.last();
        assert(second.contains(second[second.len() - 1]));
        let i = choose|i: int| 0 <= i < first.len() && first[i] == e2;
        if j < second.len() - 1 {
            assert(second[j].0 < second[second.len() - 1].0);
            if i < first.len() - 1 {
                assert(first[i].0 < first[first.len() - 1].0);
            }
        }
        assert(e1 == e2);
        let f = first.drop_last();
        let s = second.drop_last();
        assert forall|e: (NeuronId, NeuronGene)| f.contains(e) <==> s.contains(e) by {
            if f.contains(e) {
                let a = choose|a: int| 0 <= a < f.len() && f[a] == e;
                assert(first[a].0 < first[first.len() - 1].0);
                assert(first.contains(first[a]));
                let b = choose|b: int| 0 <= b < second.len() && second[b] == e;
                assert(s[b] == e);
            }
            if s.contains(e) {
                let b = choose|b: int| 0 <= b < s.len() && s[b] == e;
                assert(second[b].0 < second[second.len() - 1].0);
                assert(second.contains(second[b]));
                let a = choose|a: int| 0 <= a < first.len() && first[a] == e;
                assert(f[a] == e);
            }
        }
        assert forall|a: int, b: int| 0 <= a < b < f.len() implies (#[trigger] f[a]).0 < (
        #[trigger] f[b]).0 by {
            assert(first[a].0 < first[b].0);
        }
        assert forall|a: int, b: int| 0 <= a < b < s.len() implies (#[trigger] s[a]).0 < (
        #[trigger] s[b]).0 by {
            assert(second[a].0 < second[b].0);
        }
        lemma_ascending_same_entries(f, s);
        assert(first =~= f.push(e1));
        assert(second =~= s.push(e2));
    }
}

/// The weight matrix of `connections` over `neurons`, as these stand.
fn weights_over(neurons: &NeuronMap, connections: &ConnectionMap) -> (matrix: Vec<Real>)
    requires
        (GenomeView {
            neurons: neuron_entries(*neurons),
            connections: connection_entries(*connections),
        }).wf(),
        neuron_entries(*neurons).len() * neuron_entries(*neurons).len() <= usize::MAX,
    ensures
        matrix@ == weight_matrix(neuron_entries(*neurons), connection_entries(*connections)),
{
    let ghost ns = neuron_entries(*neurons);
    let ghost cs = connection_entries(*connections);
    let n_neurons: usize = neurons_len(neurons);
    let n_connections: usize = connections_len(connections);
    let mut matrix: Vec<Real> = filled(Real::zero(), n_neurons * n_neurons);
    let mut i: usize = 0;
    while i < n_connections
        invariant
            i <= n_connections,
            ns == neuron_entries(*neurons),
            cs == connection_entries(*connections),
            (GenomeView { neurons: ns, connections: cs }).wf(),
            n_neurons == ns.len(),
            n_connections == cs.len(),
            n_neurons * n_neurons <= usize::MAX,
            matrix@.len() == n_neurons * n_neurons,
            forall|cell: int|
                0 <= cell < n_neurons * n_neurons ==> #[trigger] matrix@[cell] == cell_weight(
                    ns,
                    cs.subrange(0, i as int),
                    cell,
                ),
        decreases n_connections - i,
    {
        let ghost done = cs.subrange(0, i as int);
        let ghost n = n_neurons as int;
        let ghost before = matrix@;
        match connections_at(connections, i) {
            Some((_, gene)) => {
                proof {
                    assert(cs[i as int].1.spec_id() == cs[i as int].0);
                    assert(has_key(ns, cs[i as int].0.0) && has_key(ns, cs[i as int].0.1));
                }
                let out_neuron_idx = match find_neuron(neurons, gene.out_neuron_id()) {
                    Some((idx, _)) => idx,
                    None => unreached(),
                };
                let in_neuron_idx = match find_neuron(neurons, gene.in_neuron_id()) {
                    Some((idx, _)) => idx,
                    None => unreached(),
                };
                proof {
                    lemma_cell(n, out_neuron_idx as int, in_neuron_idx as int);
                }
                matrix[(out_neuron_idx * n_neurons) + in_neuron_idx] = gene.weight;
                proof {
                    let id = cs[i as int].0;
                    let r = out_neuron_idx as int;
                    let c = in_neuron_idx as int;
                    let upto = cs.subrange(0, i + 1);
                    assert(distinct_keys(done)) by {
                        assert forall|a: int, b: int| 0 <= a < b < done.len() implies (
                        #[trigger] done[a]).0 != (#[trigger] done[b]).0 by {
                            assert(cs[a].0 != cs[b].0);
                        }
                    }
                    assert(!has_key(done, id)) by {
                        if has_key(done, id) {
                            let a = index_of(done, id);
                            assert(cs[a].0 != cs[i as int].0);
                        }
                    }
                    assert(upto == inserted(done, id, gene));
                    lemma_inserted(done, id, gene);
                    assert forall|cell: int| 0 <= cell < n * n implies #[trigger] matrix@[cell]
                        == cell_weight(ns, upto, cell) by {
                        lemma_cell_place(n, cell);
                        let key = (ns[cell % n].0, ns[cell / n].0);
                        if cell == r * n + c {
                            assert(key == id);
                        } else {
                            assert(before[cell] == cell_weight(ns, done, cell));
                            if key == id {
                                if cell % n != c {
                                    if cell % n < c {
                                        assert(ns[cell % n].0 != ns[c].0);
                                    } else {
                                        assert(ns[c].0 != ns[cell % n].0);
                                    }
                                }
                                if cell / n != r {
                                    if cell / n < r {
                                        assert(ns[cell / n].0 != ns[r].0);
                                    } else {
                                        assert(ns[r].0 != ns[cell / n].0);
                                    }
                                }
                            }
                            assert(key != id);
                        }
                    }
                }
            },
            None => {},
        }
        i += 1;
    }
    proof {
        assert(cs.subrange(0, n_connections as int) == cs);
        assert(matrix@ =~= weight_matrix(ns, cs));
    }
    matrix
}

impl NeuralNetwork {
    /// Get bias of neurons, in the genome's order.
    pub fn get_bias(&self) -> (bias: Vec<Real>)
        ensures
            bias@ == biases(self@.neurons),
    {
        let n: usize = neurons_len(&self.neurons);
        let mut bias: Vec<Real> = Vec::new();
        let mut i: usize = 0;
        while i < n
            invariant
                i <= n,
                n == self@.neurons.len(),
                bias@ == biases(self@.neurons.subrange(0, i as int)),
            decreases n - i,
        {
            match neurons_at(&self.neurons, i) {
                Some((_, gene)) => {
                    bias.push(gene.bias);
                },
                None => {},
            }
            assert(bias@ == biases(self@.neurons.subrange(0, i + 1)));
            i += 1;
        }
        proof {
            assert(self@.neurons.subrange(0, n as int) == self@.neurons);
        }
        bias
    }

    /// Get weights of connections, as a square matrix laid out row by row
    /// over the neurons in the genome's order.
    pub fn get_weights(&self) -> (matrix: Vec<Real>)
        requires
            self.wf(),
            self@.neurons.len() * self@.neurons.len() <= usize::MAX,
        ensures
            matrix@ == weight_matrix(self@.neurons, self@.connections),
    {
        weights_over(&self.neurons, &self.connections)
    }

    /// Create an activatable neural network from this genome: neurons in
    /// ascending order of id, every time constant one, steps of length one,
    /// ten steps to an activation.
    pub fn make_network(&self) -> (network: Ctrnn)
        requires
            self.wf(),
            self@.neurons.len() * self@.neurons.len() <= usize::MAX,
        ensures
            exists|order: Seq<(NeuronId, NeuronGene)>|
                #[trigger] sorted_by_id(order, self@.neurons) && network.theta@ == biases(order)
                    && network.wij@ == weight_matrix(order, self@.connections),
            network.tau@ == repeated(Real::one(), self@.neurons.len()),
            network.delta_t == Real::one(),
            network.steps == 10,
            network.wf(),
    {
        let mut neurons = neurons_clone(&self.neurons);
        neurons_sort_keys(&mut neurons);
        let ghost order = neuron_entries(neurons);
        proof {
            lemma_ascending(order, self@.neurons);
            lemma_sorted_by_id(order, self@.neurons);
            let sorted = GenomeView { neurons: order, connections: self@.connections };
            assert(sorted.neurons_filed()) by {
                assert forall|i: int| 0 <= i < order.len() implies (#[trigger] order[i]).1.id
                    == order[i].0 by {
                    assert(order.contains(order[i]));
                    let j = choose|j: int|
                        0 <= j < self@.neurons.len() && self@.neurons[j] == order[i];
                    assert(self@.neurons[j].1.id == self@.neurons[j].0);
                }
            }
            assert(sorted.connected());
        }
        let n: usize = neurons_len(&neurons);
        let mut theta: Vec<Real> = Vec::new();
        let mut i: usize = 0;
        while i < n
            invariant
                i <= n,
                n == order.len(),
                order == neuron_entries(neurons),
                theta@ == biases(order.subrange(0, i as int)),
            decreases n - i,
        {
            match neurons_at(&neurons, i) {
                Some((_, gene)) => {
                    theta.push(gene.bias);
                },
                None => {},
            }
            assert(theta@ == biases(order.subrange(0, i + 1)));
            i += 1;
        }
        proof {
            assert(order.subrange(0, n as int) == order);
        }
        let tau = filled(Real::one(), n);
        let wij = weights_over(&neurons, &self.connections);
        Ctrnn::new(theta, tau, wij, Real::one(), 10)
    }
}

/// What a sort by key leaves of a genome's neurons is their id-sorted
/// arrangement: with every id there once, ascending means strictly so.
proof fn lemma_ascending(order: Seq<(NeuronId, NeuronGene)>, neurons: Seq<(NeuronId, NeuronGene)>)
    requires
        distinct_keys(neurons),
        order.to_multiset() == neurons.to_multiset(),
        forall|i: int, j: int|
            0 <= i < j < order.len() ==> (#[trigger] order[i]).0 <= (#[trigger] order[j]).0,
    ensures
        sorted_by_id(order, neurons),
{
    order.to_multiset_ensures();
    neurons.to_multiset_ensures();
    assert(neurons.no_duplicates()) by {
        assert forall|i: int, j: int|
            0 <= i < neurons.len() && 0 <= j < neurons.len() && i != j implies neurons[i]
            != neurons[j] by {
            if i < j {
                assert(neurons[i].0 != neurons[j].0);
            } else {
                assert(neurons[j].0 != neurons[i].0);
            }
        }
    }
    neurons.lemma_multiset_has_no_duplicates();
    order.lemma_multiset_has_no_duplicates_conv();
    assert forall|i: int, j: int| 0 <= i < j < order.len() implies (#[trigger] order[i]).0 < (
    #[trigger] order[j]).0 by {
        if order[i].0 == order[j].0 {
            assert(order[i] != order[j]);
            assert(order.contains(order[i]));
            assert(order.contains(order[j]));
            assert(neurons.to_multiset().count(order[i]) > 0);
            assert(neurons.to_multiset().count(order[j]) > 0);
            let a = choose|a: int| 0 <= a < neurons.len() && neurons[a] == order[i];
            let b = choose|b: int| 0 <= b < neurons.len() && neurons[b] == order[j];
            if a < b {
                assert(neurons[a].0 != neurons[b].0);
            } else if b < a {
                assert(neurons[b].0 != neurons[a].0);
            }
        }
    }
}

} // verus!
