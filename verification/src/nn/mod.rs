//! Genome of a neural network: one gene per neuron, one gene per connection.

pub mod chance;
pub mod crossover;
pub mod ctrnn;
pub mod entries;
pub mod gene;
pub mod homology;
pub mod lookup;
pub mod model;
pub mod mutation;
pub mod network;
pub mod store;

pub use crate::nn::ctrnn::Ctrnn;
pub use crate::nn::gene::{ConnectionGene, ConnectionId, NeuronGene, NeuronId, Real};

use crate::nn::entries::{distinct_keys, has_key, index_of, lemma_inserted, only_at};
use crate::nn::lookup::{find_connection, find_neuron};
use crate::nn::model::{
    filed_connections, filed_neurons, fresh_neurons, genome_of, lemma_with_connection, GenomeView,
};
use crate::nn::store::{
    connection_entries, connections_at, connections_clone, connections_insert, connections_len,
    connections_new, neuron_entries, neurons_at, neurons_clone, neurons_insert, neurons_len,
    neurons_new, ConnectionMap, NeuronMap,
};
use vstd::prelude::*;

verus! {

/// Genome representing a neural network: one gene for every connection and
/// one gene for every neuron, each kept in insertion order.
///
/// Change the connections through [`NeuralNetwork::add_connection`], which
/// keeps them unique and attached to known neurons.
#[derive(Debug)]
pub struct NeuralNetwork {
    /// Connections between neurons, by endpoints.
    pub connections: ConnectionMap,
    /// Neurons with their bias, by id.
    pub neurons: NeuronMap,
}

impl View for NeuralNetwork {
    type V = GenomeView;

    open spec fn view(&self) -> GenomeView {
        GenomeView {
            neurons: neuron_entries(self.neurons),
            connections: connection_entries(self.connections),
        }
    }
}

impl Clone for NeuralNetwork {
    /// A genome with the same genes in the same order.
    fn clone(&self) -> (copy: NeuralNetwork)
        ensures
            copy@ == self@,
    {
        NeuralNetwork {
            connections: connections_clone(&self.connections),
            neurons: neurons_clone(&self.neurons),
        }
    }
}

impl Default for NeuralNetwork {
    /// A genome of one neuron, id 0 with zero bias, and no connection.
    fn default() -> (genome: NeuralNetwork)
        ensures
            genome@.neurons == fresh_neurons(1),
            genome@.connections.len() == 0,
            genome.wf(),
    {
        NeuralNetwork::with_neurons(1)
    }
}

impl NeuralNetwork {
    /// The genome's invariant; see [`GenomeView::wf`].
    pub open spec fn wf(&self) -> bool {
        self@.wf()
    }

    /// Creates a network with no connections and neurons `0..n` of zero
    /// bias: enough to cover all inputs and outputs.
    pub fn with_neurons(n: usize) -> (genome: NeuralNetwork)
        ensures
            genome@.neurons == fresh_neurons(n as nat),
            genome@.connections.len() == 0,
            genome.wf(),
    {
        let mut neurons = neurons_new();
        let mut i: usize = 0;
        while i < n
            invariant
                i <= n,
                neuron_entries(neurons) == fresh_neurons(i as nat),
            decreases n - i,
        {
            let ghost before = neuron_entries(neurons);
            let gene = NeuronGene::new(Real::zero(), i);
            neurons_insert(&mut neurons, i, gene);
            proof {
                assert(!has_key(before, i)) by {
                    if has_key(before, i) {
                        let j = index_of(before, i);
                        assert(before[j].0 == j as usize);
                    }
                }
                assert(before.push((i, gene)) == fresh_neurons((i + 1) as nat));
            }
            i += 1;
        }
        let genome = NeuralNetwork { neurons, connections: connections_new() };
        proof {
            let s = genome@.neurons;
            assert forall|a: int, b: int| 0 <= a < b < s.len() implies (#[trigger] s[a]).0 != (
            #[trigger] s[b]).0 by {}
        }
        genome
    }

    /// Builds a genome from its genes, neurons first, keeping their order.
    /// Returns `None` when an id occurs twice or a connection names a neuron
    /// that is not among them.
    pub fn from_genes(neurons: &Vec<NeuronGene>, connections: &Vec<ConnectionGene>) -> (genome:
        Option<NeuralNetwork>)
        ensures
            match genome {
                Some(genome) => genome@ == genome_of(neurons@, connections@) && genome.wf(),
                None => !genome_of(neurons@, connections@).wf(),
            },
    {
        let ghost whole = genome_of(neurons@, connections@);
        let mut neuron_map = neurons_new();
        let mut i: usize = 0;
        while i < neurons.len()
            invariant
                i <= neurons.len(),
                whole == genome_of(neurons@, connections@),
                neuron_entries(neuron_map) == filed_neurons(neurons@.subrange(0, i as int)),
                distinct_keys(neuron_entries(neuron_map)),
            decreases neurons.len() - i,
        {
            let gene = neurons[i];
            let ghost so_far = neuron_entries(neuron_map);
            if find_neuron(&neuron_map, gene.id()).is_some() {
                proof {
                    let j = index_of(so_far, gene.id);
                    assert(whole.neurons[j].0 == whole.neurons[i as int].0);
                }
                return None;
            }
            neurons_insert(&mut neuron_map, gene.id(), gene);
            proof {
                lemma_inserted(so_far, gene.id, gene);
                assert(so_far.push((gene.id, gene)) == filed_neurons(
                    neurons@.subrange(0, i + 1),
                ));
            }
            i += 1;
        }
        proof {
            assert(neurons@.subrange(0, neurons.len() as int) == neurons@);
        }
        let mut connection_map = connections_new();
        let mut i: usize = 0;
        while i < connections.len()
            invariant
                i <= connections.len(),
                whole == genome_of(neurons@, connections@),
                neuron_entries(neuron_map) == whole.neurons,
                connection_entries(connection_map) == filed_connections(
                    connections@.subrange(0, i as int),
                ),
                distinct_keys(connection_entries(connection_map)),
                forall|a: int|
                    0 <= a < i ==> has_key(whole.neurons, (#[trigger] whole.connections[a]).0.0)
                        && has_key(whole.neurons, whole.connections[a].0.1),
            decreases connections.len() - i,
        {
            let gene = connections[i];
            let ghost so_far = connection_entries(connection_map);
            if find_connection(&connection_map, gene.id()).is_some() {
                proof {
                    let j = index_of(so_far, gene.spec_id());
                    assert(whole.connections[j].0 == whole.connections[i as int].0);
                }
                return None;
            }
            if find_neuron(&neuron_map, gene.in_neuron_id()).is_none() || find_neuron(
                &neuron_map,
                gene.out_neuron_id(),
            ).is_none() {
                proof {
                    assert(whole.connections[i as int].0 == gene.spec_id());
                }
                return None;
            }
            connections_insert(&mut connection_map, gene.id(), gene);
            proof {
                lemma_inserted(so_far, gene.spec_id(), gene);
                assert(so_far.push((gene.spec_id(), gene)) == filed_connections(
                    connections@.subrange(0, i + 1),
                ));
            }
            i += 1;
        }
        proof {
            assert(connections@.subrange(0, connections.len() as int) == connections@);
        }
        Some(NeuralNetwork { connections: connection_map, neurons: neuron_map })
    }

    /// Checks the genome's invariant: every gene is filed under its own id,
    /// and both endpoints of every connection are neurons of the genome.
    /// That no id occurs twice, the maps see to themselves.
    pub fn is_well_formed(&self) -> (ok: bool)
        ensures
            ok == self.wf(),
    {
        let ghost ns = self@.neurons;
        let ghost cs = self@.connections;
        let n_neurons: usize = neurons_len(&self.neurons);
        let mut i: usize = 0;
        while i < n_neurons
            invariant
                i <= n_neurons,
                n_neurons == ns.len(),
                ns == neuron_entries(self.neurons),
                forall|a: int| 0 <= a < i ==> (#[trigger] ns[a]).1.id == ns[a].0,
                forall|a: int| 0 <= a < i ==> only_at(ns, (#[trigger] ns[a]).0, a),
            decreases n_neurons - i,
        {
            match neurons_at(&self.neurons, i) {
                Some((id, gene)) => {
                    if gene.id() != id {
                        return false;
                    }
                },
                None => {},
            }
            i += 1;
        }
        proof {
            assert forall|a: int, b: int| 0 <= a < b < ns.len() implies (#[trigger] ns[a]).0 != (
            #[trigger] ns[b]).0 by {
                assert(only_at(ns, ns[a].0, a));
            }
        }
        let n_connections: usize = connections_len(&self.connections);
        let mut i: usize = 0;
        while i < n_connections
            invariant
                i <= n_connections,
                n_connections == cs.len(),
                ns == neuron_entries(self.neurons),
                cs == connection_entries(self.connections),
                distinct_keys(ns),
                forall|a: int| 0 <= a < ns.len() ==> (#[trigger] ns[a]).1.id == ns[a].0,
                forall|a: int| 0 <= a < i ==> (#[trigger] cs[a]).1.spec_id() == cs[a].0,
                forall|a: int| 0 <= a < i ==> only_at(cs, (#[trigger] cs[a]).0, a),
                forall|a: int|
                    0 <= a < i ==> has_key(ns, (#[trigger] cs[a]).0.0) && has_key(ns, cs[a].0.1),
            decreases n_connections - i,
        {
            match connections_at(&self.connections, i) {
                Some((id, gene)) => {
                    if gene.in_neuron_id() != id.0 || gene.out_neuron_id() != id.1 {
                        return false;
                    }
                    if find_neuron(&self.neurons, id.0).is_none() || find_neuron(
                        &self.neurons,
                        id.1,
                    ).is_none() {
                        return false;
                    }
                },
                None => {},
            }
            i += 1;
        }
        proof {
            assert forall|a: int, b: int| 0 <= a < b < cs.len() implies (#[trigger] cs[a]).0 != (
            #[trigger] cs[b]).0 by {
                assert(only_at(cs, cs[a].0, a));
            }
        }
        true
    }

    /// Whether two genomes hold the same genes in the same order.
    pub fn same_genes(&self, other: &NeuralNetwork) -> (same: bool)
        ensures
            same == (self@ == other@),
    {
        let n_neurons: usize = neurons_len(&self.neurons);
        let n_connections: usize = connections_len(&self.connections);
        if n_neurons != neurons_len(&other.neurons) || n_connections != connections_len(
            &other.connections,
        ) {
            return false;
        }
        let mut i: usize = 0;
        while i < n_neurons
            invariant
                i <= n_neurons,
                n_neurons == self@.neurons.len(),
                n_neurons == other@.neurons.len(),
                forall|a: int| 0 <= a < i ==> self@.neurons[a] == other@.neurons[a],
            decreases n_neurons - i,
        {
            match (neurons_at(&self.neurons, i), neurons_at(&other.neurons, i)) {
                (Some((id, gene)), Some((other_id, other_gene))) => {
                    if id != other_id || gene != other_gene {
                        return false;
                    }
                },
                _ => {},
            }
            i += 1;
        }
        let mut i: usize = 0;
        while i < n_connections
            invariant
                i <= n_connections,
                n_connections == self@.connections.len(),
                n_connections == other@.connections.len(),
                self@.neurons == other@.neurons,
                forall|a: int| 0 <= a < i ==> self@.connections[a] == other@.connections[a],
            decreases n_connections - i,
        {
            match (connections_at(&self.connections, i), connections_at(&other.connections, i)) {
                (Some((id, gene)), Some((other_id, other_gene))) => {
                    if id.0 != other_id.0 || id.1 != other_id.1 || gene != other_gene {
                        return false;
                    }
                },
                _ => {},
            }
            i += 1;
        }
        proof {
            assert(self@.connections =~= other@.connections);
        }
        true
    }

    /// Get number of neurons.
    pub fn n_neurons(&self) -> (n: usize)
        ensures
            n == self@.neurons.len(),
    {
        neurons_len(&self.neurons)
    }

    /// Get number of connections.
    pub fn n_connections(&self) -> (n: usize)
        ensures
            n == self@.connections.len(),
    {
        connections_len(&self.connections)
    }

    /// Whether the genome has a neuron with this id.
    pub fn has_neuron(&self, id: NeuronId) -> (known: bool)
        ensures
            known == self@.has_neuron(id),
    {
        find_neuron(&self.neurons, id).is_some()
    }

    /// The bias of neuron `id`, if the genome has it.
    pub fn bias(&self, id: NeuronId) -> (bias: Option<Real>)
        ensures
            bias == self@.bias(id),
    {
        match find_neuron(&self.neurons, id) {
            Some((_, gene)) => Some(gene.bias),
            None => None,
        }
    }

    /// The weight of connection `from -> to`, if the genome has it.
    pub fn weight(&self, from: NeuronId, to: NeuronId) -> (weight: Option<Real>)
        ensures
            weight == self@.weight((from, to)),
    {
        match find_connection(&self.connections, (from, to)) {
            Some((_, gene)) => Some(gene.weight),
            None => None,
        }
    }

    /// Adds a connection, or sets the weight of the connection that already
    /// joins the two neurons. Both endpoints must be neurons of the genome.
    pub fn add_connection(&mut self, in_neuron: NeuronId, out_neuron: NeuronId, weight: Real)
        requires
            old(self).wf(),
            old(self)@.has_neuron(in_neuron),
            old(self)@.has_neuron(out_neuron),
        ensures
            final(self)@ == old(self)@.with_connection(in_neuron, out_neuron, weight),
            final(self)@.weight((in_neuron, out_neuron)) == Some(weight),
            final(self).wf(),
    {
        let new_gene = ConnectionGene::new(in_neuron, out_neuron, weight);
        connections_insert(&mut self.connections, new_gene.id(), new_gene);
        proof {
            lemma_with_connection(old(self)@, in_neuron, out_neuron, weight);
        }
    }
}

} // verus!
