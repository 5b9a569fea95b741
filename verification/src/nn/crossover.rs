//! Homologous crossover of two genomes.
//!
//! The child takes every gene of the fitter parent; where the other parent
//! has a gene with the same id, a fair coin decides which of the two copies
//! the child gets. The coins are flipped first and handed on: crossing is
//! exact for every outcome of the coins.

use crate::nn::NeuralNetwork;
use crate::nn::chance::random_bool;
use crate::nn::entries::{distinct_keys, has_key, index_of, keys_of, value_of};
use crate::nn::lookup::{find_connection, find_neuron};
use crate::nn::model::GenomeView;
use crate::nn::store::{
    connection_entries, connections_at, connections_insert, connections_len, connections_new,
    neuron_entries, neurons_at, neurons_insert, neurons_len, neurons_new, ConnectionMap, NeuronMap,
};
use vstd::prelude::*;

verus! {

/// The coin of the gene at place `i`: true for the fitter parent's copy. A
/// gene beyond the coins given keeps the fitter parent's copy.
pub open spec fn coin_at(coins: Seq<bool>, i: int) -> bool {
    i >= coins.len() || coins[i]
}

/// The gene that a child gets: the fitter parent's, unless the other parent
/// has a homologous gene and the coin falls for it.
pub open spec fn inherited<G>(best: G, worst: Option<G>, coin: bool) -> G {
    match worst {
        Some(other) => if coin {
            best
        } else {
            other
        },
        None => best,
    }
}

/// The genes of a child: the ids of `best`, each in its place, and under
/// each id the gene that the coin of its place selects.
pub open spec fn crossed<K, V>(best: Seq<(K, V)>, worst: Seq<(K, V)>, coins: Seq<bool>) -> Seq<
    (K, V),
> {
    Seq::new(
        best.len(),
        |i: int| (best[i].0, inherited(best[i].1, value_of(worst, best[i].0), coin_at(coins, i))),
    )
}

/// The child of two genomes under the coins given.
pub open spec fn crossed_genome(
    best: GenomeView,
    worst: GenomeView,
    neuron_coins: Seq<bool>,
    connection_coins: Seq<bool>,
) -> GenomeView {
    GenomeView {
        neurons: crossed(best.neurons, worst.neurons, neuron_coins),
        connections: crossed(best.connections, worst.connections, connection_coins),
    }
}

/// The fitter of two parents' genomes.
pub open spec fn fitter(own: GenomeView, other: GenomeView, fittest: bool) -> GenomeView {
    if fittest {
        own
    } else {
        other
    }
}

/// A child has exactly the ids of the fitter parent, each in its place,
/// whatever the coins.
pub proof fn lemma_crossed_keys<K, V>(best: Seq<(K, V)>, worst: Seq<(K, V)>, coins: Seq<bool>)
    ensures
        keys_of(crossed(best, worst, coins)) == keys_of(best),
        distinct_keys(best) ==> distinct_keys(crossed(best, worst, coins)),
        forall|k: K| has_key(crossed(best, worst, coins), k) <==> has_key(best, k),
{
    let child = crossed(best, worst, coins);
    assert(keys_of(child) =~= keys_of(best));
    if distinct_keys(best) {
        assert forall|i: int, j: int| 0 <= i < j < child.len() implies (#[trigger] child[i]).0 != (
        #[trigger] child[j]).0 by {
            assert(best[i].0 != best[j].0);
        }
    }
    assert forall|k: K| has_key(child, k) <==> has_key(best, k) by {
        if has_key(child, k) {
            let i = index_of(child, k);
            assert(best[i].0 == k);
        }
        if has_key(best, k) {
            let i = index_of(best, k);
            assert(child[i].0 == k);
        }
    }
}

/// A child of two well-formed parents is well formed, and has exactly the
/// neuron ids and connection ids of the fitter parent.
pub proof fn lemma_crossed_genome(
    best: GenomeView,
    worst: GenomeView,
    neuron_coins: Seq<bool>,
    connection_coins: Seq<bool>,
)
    requires
        best.wf(),
        worst.wf(),
    ensures
        crossed_genome(best, worst, neuron_coins, connection_coins).wf(),
        keys_of(crossed_genome(best, worst, neuron_coins, connection_coins).neurons) == keys_of(
            best.neurons,
        ),
        keys_of(crossed_genome(best, worst, neuron_coins, connection_coins).connections)
            == keys_of(best.connections),
{
    let child = crossed_genome(best, worst, neuron_coins, connection_coins);
    lemma_crossed_keys(best.neurons, worst.neurons, neuron_coins);
    lemma_crossed_keys(best.connections, worst.connections, connection_coins);
    assert forall|i: int| 0 <= i < child.neurons.len() implies (#[trigger] child.neurons[i]).1.id
        == child.neurons[i].0 by {
        let k = best.neurons[i].0;
        assert(best.neurons[i].1.id == k);
        if has_key(worst.neurons, k) {
            let j = index_of(worst.neurons, k);
            assert(worst.neurons[j].1.id == worst.neurons[j].0);
        }
    }
    assert forall|i: int| 0 <= i < child.connections.len() implies (
    #[trigger] child.connections[i]).1.spec_id() == child.connections[i].0 by {
        let k = best.connections[i].0;
        assert(best.connections[i].1.spec_id() == k);
        if has_key(worst.connections, k) {
            let j = index_of(worst.connections, k);
            assert(worst.connections[j].1.spec_id() == worst.connections[j].0);
        }
    }
    assert forall|i: int| 0 <= i < child.connections.len() implies has_key(
        child.neurons,
        (#[trigger] child.connections[i]).0.0,
    ) && has_key(child.neurons, child.connections[i].0.1) by {
        assert(child.connections[i].0 == best.connections[i].0);
        assert(has_key(best.neurons, best.connections[i].0.0));
        assert(has_key(best.neurons, best.connections[i].0.1));
    }
}

/// The gene that a child gets: the fitter parent's, unless the other parent
/// has a homologous gene and the coin falls for it.
pub fn inherit<G: Copy>(best: G, worst: Option<G>, coin: bool) -> (gene: G)
    ensures
        gene == inherited(best, worst, coin),
{
    match worst {
        Some(other) => if coin {
            best
        } else {
            other
        },
        None => best,
    }
}

/// Flips `n` fair coins.
pub fn flip_coins(n: usize) -> (coins: Vec<bool>)
    ensures
        coins@.len() == n,
{
    let mut coins: Vec<bool> = Vec::new();
    let mut i: usize = 0;
    while i < n
        invariant
            i <= n,
            coins@.len() == i,
        decreases n - i,
    {
        coins.push(random_bool());
        i += 1;
    }
    coins
}

/// Crosses the neuron genes of two parents under the coins given, one coin
/// for each gene of `best` in order.
pub fn cross_neurons(best: &NeuronMap, worst: &NeuronMap, coins: &Vec<bool>) -> (genes: NeuronMap)
    requires
        distinct_keys(neuron_entries(*best)),
    ensures
        neuron_entries(genes) == crossed(neuron_entries(*best), neuron_entries(*worst), coins@),
{
    let ghost b = neuron_entries(*best);
    let ghost w = neuron_entries(*worst);
    let n: usize = neurons_len(best);
    let mut genes = neurons_new();
    let mut i: usize = 0;
    while i < n
        invariant
            i <= n,
            n == b.len(),
            b == neuron_entries(*best),
            w == neuron_entries(*worst),
            distinct_keys(b),
            neuron_entries(genes) == crossed(b, w, coins@).subrange(0, i as int),
        decreases n - i,
    {
        let ghost so_far = neuron_entries(genes);
        match neurons_at(best, i) {
            Some((id, best_gene)) => {
                let worst_gene = match find_neuron(worst, id) {
                    Some((_, gene)) => Some(gene),
                    None => None,
                };
                let coin = if i < coins.len() {
                    coins[i]
                } else {
                    true
                };
                let gene = inherit(best_gene, worst_gene, coin);
                proof {
                    if has_key(so_far, id) {
                        let j = index_of(so_far, id);
                        assert(b[j].0 != b[i as int].0);
                    }
                }
                neurons_insert(&mut genes, id, gene);
                proof {
                    assert(so_far.push((id, gene)) == crossed(b, w, coins@).subrange(0, i + 1));
                }
            },
            None => {},
        }
        i += 1;
    }
    proof {
        assert(crossed(b, w, coins@).subrange(0, n as int) == crossed(b, w, coins@));
    }
    genes
}

/// Crosses the connection genes of two parents under the coins given, one
/// coin for each gene of `best` in order.
pub fn cross_connections(best: &ConnectionMap, worst: &ConnectionMap, coins: &Vec<bool>) -> (genes:
    ConnectionMap)
    requires
        distinct_keys(connection_entries(*best)),
    ensures
        connection_entries(genes) == crossed(
            connection_entries(*best),
            connection_entries(*worst),
            coins@,
        ),
{
    let ghost b = connection_entries(*best);
    let ghost w = connection_entries(*worst);
    let n: usize = connections_len(best);
    let mut genes = connections_new();
    let mut i: usize = 0;
    while i < n
        invariant
            i <= n,
            n == b.len(),
            b == connection_entries(*best),
            w == connection_entries(*worst),
            distinct_keys(b),
            connection_entries(genes) == crossed(b, w, coins@).subrange(0, i as int),
        decreases n - i,
    {
        let ghost so_far = connection_entries(genes);
        match connections_at(best, i) {
            Some((id, best_gene)) => {
                let worst_gene = match find_connection(worst, id) {
                    Some((_, gene)) => Some(gene),
                    None => None,
                };
                let coin = if i < coins.len() {
                    coins[i]
                } else {
                    true
                };
                let gene = inherit(best_gene, worst_gene, coin);
                proof {
                    if has_key(so_far, id) {
                        let j = index_of(so_far, id);
                        assert(b[j].0 != b[i as int].0);
                    }
                }
                connections_insert(&mut genes, id, gene);
                proof {
                    assert(so_far.push((id, gene)) == crossed(b, w, coins@).subrange(0, i + 1));
                }
            },
            None => {},
        }
        i += 1;
    }
    proof {
        assert(crossed(b, w, coins@).subrange(0, n as int) == crossed(b, w, coins@));
    }
    genes
}

/// Crosses the neuron genes of two parents, with a fair coin for each gene.
pub fn reproduce_neurons(best: &NeuronMap, worst: &NeuronMap) -> (genes: NeuronMap)
    requires
        distinct_keys(neuron_entries(*best)),
    ensures
        exists|coins: Seq<bool>|
            neuron_entries(genes) == #[trigger] crossed(
                neuron_entries(*best),
                neuron_entries(*worst),
                coins,
            ),
{
    let coins = flip_coins(neurons_len(best));
    cross_neurons(best, worst, &coins)
}

/// Crosses the connection genes of two parents, with a fair coin for each
/// gene.
pub fn reproduce_connections(best: &ConnectionMap, worst: &ConnectionMap) -> (genes: ConnectionMap)
    requires
        distinct_keys(connection_entries(*best)),
    ensures
        exists|coins: Seq<bool>|
            connection_entries(genes) == #[trigger] crossed(
                connection_entries(*best),
                connection_entries(*worst),
                coins,
            ),
{
    let coins = flip_coins(connections_len(best));
    cross_connections(best, worst, &coins)
}

impl NeuralNetwork {
    /// Mates two genomes under the coins given; `fittest` is true if `self`
    /// is the fitter one.
    ///
    /// The child has the neurons and connections of the fitter parent, in
    /// the same order; each gene that the other parent shares comes from the
    /// parent that its coin selects.
    pub fn mate_with(
        &self,
        other: &NeuralNetwork,
        fittest: bool,
        neuron_coins: &Vec<bool>,
        connection_coins: &Vec<bool>,
    ) -> (child: NeuralNetwork)
        requires
            self.wf(),
            other.wf(),
        ensures
            child@ == crossed_genome(
                fitter(self@, other@, fittest),
                fitter(other@, self@, fittest),
                neuron_coins@,
                connection_coins@,
            ),
            keys_of(child@.neurons) == keys_of(fitter(self@, other@, fittest).neurons),
            keys_of(child@.connections) == keys_of(fitter(self@, other@, fittest).connections),
            child.wf(),
    {
        let (best, worst) = if fittest {
            (self, other)
        } else {
            (other, self)
        };
        let neurons = cross_neurons(&best.neurons, &worst.neurons, neuron_coins);
        let connections = cross_connections(
            &best.connections,
            &worst.connections,
            connection_coins,
        );
        proof {
            lemma_crossed_genome(best@, worst@, neuron_coins@, connection_coins@);
        }
        NeuralNetwork { connections, neurons }
    }

    /// Mates two genomes, with a fair coin for each gene; `fittest` is true
    /// if `self` is the fitter one.
    pub fn mate(&self, other: &NeuralNetwork, fittest: bool) -> (child: NeuralNetwork)
        requires
            self.wf(),
            other.wf(),
        ensures
            exists|neuron_coins: Seq<bool>, connection_coins: Seq<bool>|
                child@ == #[trigger] crossed_genome(
                    fitter(self@, other@, fittest),
                    fitter(other@, self@, fittest),
                    neuron_coins,
                    connection_coins,
                ),
            keys_of(child@.neurons) == keys_of(fitter(self@, other@, fittest).neurons),
            keys_of(child@.connections) == keys_of(fitter(self@, other@, fittest).connections),
            child.wf(),
    {
        let (n_neurons, n_connections) = if fittest {
            (self.n_neurons(), self.n_connections())
        } else {
            (other.n_neurons(), other.n_connections())
        };
        let neuron_coins = flip_coins(n_neurons);
        let connection_coins = flip_coins(n_connections);
        self.mate_with(other, fittest, &neuron_coins, &connection_coins)
    }
}

} // verus!
