//! The genome as a mathematical value, and its structural operations.

use crate::nn::entries::{
    distinct_keys, has_key, index_of, inserted, lemma_index_of_unique, lemma_inserted,
    lemma_swap_removed, lemma_swap_removed_all, same_leading_keys, swap_removed, swap_removed_all,
    value_of,
};
use crate::nn::gene::{ConnectionGene, ConnectionId, NeuronGene, NeuronId, Real};
use vstd::prelude::*;

verus! {

/// A connection with endpoint `id`.
pub open spec fn touches(c: ConnectionId, id: NeuronId) -> bool {
    c.0 == id || c.1 == id
}

/// The ids of the connections of `s` that touch neuron `id`, in order.
pub open spec fn touching(s: Seq<(ConnectionId, ConnectionGene)>, id: NeuronId) -> Seq<
    ConnectionId,
>
    decreases s.len(),
{
    if s.len() == 0 {
        Seq::empty()
    } else if touches(s.last().0, id) {
        touching(s.drop_last(), id).push(s.last().0)
    } else {
        touching(s.drop_last(), id)
    }
}

/// Neurons `0..n` with zero bias, in ascending order.
pub open spec fn fresh_neurons(n: nat) -> Seq<(NeuronId, NeuronGene)> {
    Seq::new(n, |i: int| (i as usize, NeuronGene { bias: Real::zero(), id: i as usize }))
}

/// Neuron genes, each filed under its id.
pub open spec fn filed_neurons(genes: Seq<NeuronGene>) -> Seq<(NeuronId, NeuronGene)> {
    Seq::new(genes.len(), |i: int| (genes[i].id, genes[i]))
}

/// Connection genes, each filed under its pair of endpoints.
pub open spec fn filed_connections(genes: Seq<ConnectionGene>) -> Seq<
    (ConnectionId, ConnectionGene),
> {
    Seq::new(genes.len(), |i: int| (genes[i].spec_id(), genes[i]))
}

/// The genome that holds exactly these genes, in this order.
pub open spec fn genome_of(neurons: Seq<NeuronGene>, connections: Seq<ConnectionGene>)
    -> GenomeView {
    GenomeView { neurons: filed_neurons(neurons), connections: filed_connections(connections) }
}

/// What a genome holds: its neuron genes and its connection genes, each in
/// insertion order and filed under the gene's id.
pub struct GenomeView {
    pub neurons: Seq<(NeuronId, NeuronGene)>,
    pub connections: Seq<(ConnectionId, ConnectionGene)>,
}

impl GenomeView {
    /// Every neuron gene is filed under its own id.
    pub open spec fn neurons_filed(self) -> bool {
        forall|i: int|
            0 <= i < self.neurons.len() ==> (#[trigger] self.neurons[i]).1.id == self.neurons[i].0
    }

    /// Every connection gene is filed under its own pair of endpoints.
    pub open spec fn connections_filed(self) -> bool {
        forall|i: int|
            0 <= i < self.connections.len() ==> (#[trigger] self.connections[i]).1.spec_id()
                == self.connections[i].0
    }

    /// Both endpoints of every connection are neurons of the genome.
    pub open spec fn connected(self) -> bool {
        forall|i: int|
            0 <= i < self.connections.len() ==> has_key(
                self.neurons,
                (#[trigger] self.connections[i]).0.0,
            ) && has_key(self.neurons, self.connections[i].0.1)
    }

    /// The genome's invariant: ids are unique, genes are filed under their
    /// ids, and no connection dangles.
    pub open spec fn wf(self) -> bool {
        &&& distinct_keys(self.neurons)
        &&& distinct_keys(self.connections)
        &&& self.neurons_filed()
        &&& self.connections_filed()
        &&& self.connected()
    }

    pub open spec fn has_neuron(self, id: NeuronId) -> bool {
        has_key(self.neurons, id)
    }

    pub open spec fn has_connection(self, id: ConnectionId) -> bool {
        has_key(self.connections, id)
    }

    /// The weight of connection `id`, if the genome has it.
    pub open spec fn weight(self, id: ConnectionId) -> Option<Real> {
        match value_of(self.connections, id) {
            Some(gene) => Some(gene.weight),
            None => None,
        }
    }

    /// The bias of neuron `id`, if the genome has it.
    pub open spec fn bias(self, id: NeuronId) -> Option<Real> {
        match value_of(self.neurons, id) {
            Some(gene) => Some(gene.bias),
            None => None,
        }
    }

    /// The genome with neuron `id` set to `bias`: a known neuron keeps its
    /// place, a new one goes last.
    pub open spec fn with_neuron(self, id: NeuronId, bias: Real) -> GenomeView {
        GenomeView {
            neurons: inserted(self.neurons, id, NeuronGene { bias, id }),
            connections: self.connections,
        }
    }

    /// The genome with connection `from -> to` set to `weight`: a known
    /// connection keeps its place, a new one goes last.
    pub open spec fn with_connection(self, from: NeuronId, to: NeuronId, weight: Real)
        -> GenomeView {
        GenomeView {
            neurons: self.neurons,
            connections: inserted(
                self.connections,
                (from, to),
                ConnectionGene { in_neuron: from, out_neuron: to, weight },
            ),
        }
    }

    /// The genome without connection `id`; the last connection takes the
    /// freed place.
    pub open spec fn without_connection(self, id: ConnectionId) -> GenomeView {
        GenomeView { neurons: self.neurons, connections: swap_removed(self.connections, id) }
    }

    /// The genome without neuron `id` and without every connection that
    /// touches it.
    pub open spec fn without_neuron(self, id: NeuronId) -> GenomeView {
        GenomeView {
            neurons: swap_removed(self.neurons, id),
            connections: swap_removed_all(self.connections, touching(self.connections, id)),
        }
    }

    /// The genome with connection `id` replaced by a path through `neuron`:
    /// the connection leaves, `neuron` enters with zero bias, `id.0 -> neuron`
    /// gets weight one and `neuron -> id.1` inherits the old weight.
    pub open spec fn with_split_connection(self, id: ConnectionId, neuron: NeuronId) -> GenomeView
        recommends
            self.has_connection(id),
    {
        let old_weight = self.connections[index_of(self.connections, id)].1.weight;
        self.without_connection(id).with_neuron(neuron, Real::zero()).with_connection(
            id.0,
            neuron,
            Real::one(),
        ).with_connection(neuron, id.1, old_weight)
    }

    /// The first `n` neuron ids of `self` are still the first of `after`.
    pub open spec fn keeps_leading_neurons(self, after: GenomeView, n: int) -> bool {
        same_leading_keys(self.neurons, after.neurons, n)
    }

    /// The neuron id that a draw selects: the one at place `draw` modulo the
    /// number of neurons.
    pub open spec fn drawn_neuron(self, draw: nat) -> NeuronId
        recommends
            self.neurons.len() > 0,
    {
        self.neurons[(draw % self.neurons.len()) as int].0
    }

    /// The connection id that a draw selects: the one at place `draw` modulo
    /// the number of connections.
    pub open spec fn drawn_connection(self, draw: nat) -> ConnectionId
        recommends
            self.connections.len() > 0,
    {
        self.connections[(draw % self.connections.len()) as int].0
    }

    /// The neuron id that a draw selects among those behind the first
    /// `sacred`: the one at place `sacred` plus `draw` modulo their number.
    pub open spec fn drawn_removable_neuron(self, draw: nat, sacred: nat) -> NeuronId
        recommends
            self.neurons.len() > sacred,
    {
        self.neurons[(draw % ((self.neurons.len() - sacred) as nat) + sacred) as int].0
    }

    /// The genome with a zero-weight connection set between the two neurons
    /// drawn, or the genome itself when it has no neuron.
    pub open spec fn add_connection_drawn(self, in_draw: nat, out_draw: nat) -> GenomeView {
        if self.neurons.len() == 0 {
            self
        } else {
            self.with_connection(
                self.drawn_neuron(in_draw),
                self.drawn_neuron(out_draw),
                Real::zero(),
            )
        }
    }

    /// The genome with the connection drawn routed through `neuron`, or with
    /// `neuron` alone when there is no connection to split.
    pub open spec fn add_neuron_drawn(self, neuron: NeuronId, draw: nat) -> GenomeView {
        if self.connections.len() == 0 {
            self.with_neuron(neuron, Real::zero())
        } else {
            self.with_split_connection(self.drawn_connection(draw), neuron)
        }
    }

    /// The genome without the neuron drawn from behind the first `sacred`
    /// and without its connections, or the genome itself when no neuron
    /// stands behind them.
    pub open spec fn remove_neuron_drawn(self, sacred: nat, draw: nat) -> GenomeView {
        if self.neurons.len() <= sacred {
            self
        } else {
            self.without_neuron(self.drawn_removable_neuron(draw, sacred))
        }
    }

    /// The genome without the connection drawn, or the genome itself when it
    /// has none.
    pub open spec fn remove_connection_drawn(self, draw: nat) -> GenomeView {
        if self.connections.len() == 0 {
            self
        } else {
            self.without_connection(self.drawn_connection(draw))
        }
    }
}

/// What `touching` lists: exactly the ids of `s` that touch `id`.
pub proof fn lemma_touching(s: Seq<(ConnectionId, ConnectionGene)>, id: NeuronId)
    ensures
        forall|c: ConnectionId|
            #[trigger] touching(s, id).contains(c) <==> (has_key(s, c) && touches(c, id)),
    decreases s.len(),
{
    if s.len() == 0 {
        assert forall|c: ConnectionId| !touching(s, id).contains(c) by {}
    } else {
        let front = s.drop_last();
        lemma_touching(front, id);
        let ks = touching(s, id);
        let kf = touching(front, id);
        assert forall|c: ConnectionId| ks.contains(c) <==> (has_key(s, c) && touches(c, id)) by {
            if ks.contains(c) {
                let i = choose|i: int| 0 <= i < ks.len() && ks[i] == c;
                if touches(s.last().0, id) && i == ks.len() - 1 {
                    assert(s[s.len() - 1].0 == c);
                } else {
                    assert(kf[i] == c);
                    assert(kf.contains(c));
                    let j = index_of(front, c);
                    assert(s[j].0 == c);
                }
            }
            if has_key(s, c) && touches(c, id) {
                let j = index_of(s, c);
                if j == s.len() - 1 {
                    assert(ks[ks.len() - 1] == c);
                } else {
                    assert(front[j].0 == c);
                    assert(kf.contains(c));
                    let i = choose|i: int| 0 <= i < kf.len() && kf[i] == c;
                    assert(ks[i] == c);
                }
            }
        }
    }
}

/// Setting a neuron keeps the genome well formed and every neuron id in its
/// place.
pub proof fn lemma_with_neuron(g: GenomeView, id: NeuronId, bias: Real)
    requires
        g.wf(),
    ensures
        g.with_neuron(id, bias).wf(),
        g.with_neuron(id, bias).has_neuron(id),
        g.with_neuron(id, bias).bias(id) == Some(bias),
        forall|k: NeuronId| g.has_neuron(k) ==> g.with_neuron(id, bias).has_neuron(k),
        forall|n: int| g.keeps_leading_neurons(g.with_neuron(id, bias), n),
{
    let after = g.with_neuron(id, bias);
    lemma_inserted(g.neurons, id, NeuronGene { bias, id });
    assert(after.neurons_filed());
    assert(after.connected());
}

/// Setting a connection between two neurons of the genome keeps it well
/// formed.
pub proof fn lemma_with_connection(g: GenomeView, from: NeuronId, to: NeuronId, weight: Real)
    requires
        g.wf(),
        g.has_neuron(from),
        g.has_neuron(to),
    ensures
        g.with_connection(from, to, weight).wf(),
        g.with_connection(from, to, weight).has_connection((from, to)),
        g.with_connection(from, to, weight).weight((from, to)) == Some(weight),
        forall|c: ConnectionId|
            c != (from, to) ==> g.with_connection(from, to, weight).weight(c) == g.weight(c),
{
    let after = g.with_connection(from, to, weight);
    lemma_inserted(
        g.connections,
        (from, to),
        ConnectionGene { in_neuron: from, out_neuron: to, weight },
    );
    assert(after.connections_filed());
    assert(after.connected());
}

/// Removing a connection keeps the genome well formed.
pub proof fn lemma_without_connection(g: GenomeView, id: ConnectionId)
    requires
        g.wf(),
    ensures
        g.without_connection(id).wf(),
        !g.without_connection(id).has_connection(id),
        forall|c: ConnectionId|
            g.without_connection(id).has_connection(c) <==> (g.has_connection(c) && c != id),
        forall|c: ConnectionId| c != id ==> g.without_connection(id).weight(c) == g.weight(c),
{
    let after = g.without_connection(id);
    lemma_swap_removed(g.connections, id);
    assert(after.connections_filed()) by {
        assert forall|i: int| 0 <= i < after.connections.len() implies (
        #[trigger] after.connections[i]).1.spec_id() == after.connections[i].0 by {
            if after.connections[i] == g.connections[i] {
            } else {
                assert(after.connections[i] == g.connections[g.connections.len() - 1]);
            }
        }
    }
    assert(after.connected()) by {
        assert forall|i: int| 0 <= i < after.connections.len() implies has_key(
            after.neurons,
            (#[trigger] after.connections[i]).0.0,
        ) && has_key(after.neurons, after.connections[i].0.1) by {
            if after.connections[i] == g.connections[i] {
            } else {
                assert(after.connections[i] == g.connections[g.connections.len() - 1]);
            }
        }
    }
}

/// Removing a neuron with the connections that touch it keeps the genome
/// well formed, and keeps exactly the connections that do not touch it.
pub proof fn lemma_without_neuron(g: GenomeView, id: NeuronId)
    requires
        g.wf(),
    ensures
        g.without_neuron(id).wf(),
        !g.without_neuron(id).has_neuron(id),
        forall|k: NeuronId| g.without_neuron(id).has_neuron(k) <==> (g.has_neuron(k) && k != id),
        forall|c: ConnectionId|
            g.without_neuron(id).has_connection(c) <==> (g.has_connection(c) && !touches(c, id)),
        forall|c: ConnectionId| !touches(c, id) ==> g.without_neuron(id).weight(c) == g.weight(c),
        forall|n: int|
            g.has_neuron(id) && n <= index_of(g.neurons, id) ==> g.keeps_leading_neurons(
                g.without_neuron(id),
                n,
            ),
{
    let after = g.without_neuron(id);
    let ks = touching(g.connections, id);
    lemma_swap_removed(g.neurons, id);
    lemma_touching(g.connections, id);
    lemma_swap_removed_all(g.connections, ks);
    assert(after.neurons_filed()) by {
        assert forall|i: int| 0 <= i < after.neurons.len() implies (
        #[trigger] after.neurons[i]).1.id == after.neurons[i].0 by {
            if after.neurons[i] == g.neurons[i] {
            } else {
                assert(after.neurons[i] == g.neurons[g.neurons.len() - 1]);
            }
        }
    }
    assert forall|i: int| 0 <= i < after.connections.len() implies {
        &&& (#[trigger] after.connections[i]).1.spec_id() == after.connections[i].0
        &&& has_key(after.neurons, after.connections[i].0.0)
        &&& has_key(after.neurons, after.connections[i].0.1)
    } by {
        let e = after.connections[i];
        assert(g.connections.contains(e));
        let j = choose|j: int| 0 <= j < g.connections.len() && g.connections[j] == e;
        assert(g.connections[j].1.spec_id() == g.connections[j].0);
        assert(has_key(g.neurons, g.connections[j].0.0));
        assert(has_key(after.connections, e.0));
        assert(!ks.contains(e.0));
        assert(has_key(g.connections, e.0));
        assert(!touches(e.0, id));
    }
    assert(after.connections_filed());
    assert(after.connected());
    assert forall|c: ConnectionId| !touches(c, id) implies after.weight(c) == g.weight(c) by {
        assert(!ks.contains(c));
    }
    assert forall|n: int|
        g.has_neuron(id) && n <= index_of(g.neurons, id) implies g.keeps_leading_neurons(
        after,
        n,
    ) by {
        let p = index_of(g.neurons, id);
        assert(p <= g.neurons.len() - 1);
        assert forall|i: int| 0 <= i < n && i < g.neurons.len() implies (
        #[trigger] after.neurons[i]).0 == g.neurons[i].0 by {
            assert(i < p);
            assert(after.neurons[i] == g.neurons[i]);
        }
    }
}

/// Routing a connection through a neuron keeps the genome well formed and
/// every neuron id in its place.
pub proof fn lemma_with_split_connection(g: GenomeView, id: ConnectionId, neuron: NeuronId)
    requires
        g.wf(),
        g.has_connection(id),
    ensures
        g.with_split_connection(id, neuron).wf(),
        g.with_split_connection(id, neuron).has_neuron(neuron),
        g.with_split_connection(id, neuron).has_connection((id.0, neuron)),
        g.with_split_connection(id, neuron).has_connection((neuron, id.1)),
        forall|k: NeuronId| g.has_neuron(k) ==> g.with_split_connection(id, neuron).has_neuron(k),
        forall|n: int| g.keeps_leading_neurons(g.with_split_connection(id, neuron), n),
{
    let p = index_of(g.connections, id);
    let old_weight = g.connections[p].1.weight;
    assert(has_key(g.neurons, g.connections[p].0.0) && has_key(g.neurons, g.connections[p].0.1));
    let g1 = g.without_connection(id);
    lemma_without_connection(g, id);
    assert(g1.has_neuron(id.0) && g1.has_neuron(id.1));
    let g2 = g1.with_neuron(neuron, Real::zero());
    lemma_with_neuron(g1, neuron, Real::zero());
    assert(g2.has_neuron(id.0) && g2.has_neuron(id.1));
    let g3 = g2.with_connection(id.0, neuron, Real::one());
    lemma_with_connection(g2, id.0, neuron, Real::one());
    let g4 = g3.with_connection(neuron, id.1, old_weight);
    lemma_with_connection(g3, neuron, id.1, old_weight);
    lemma_inserted(
        g3.connections,
        (neuron, id.1),
        ConnectionGene { in_neuron: neuron, out_neuron: id.1, weight: old_weight },
    );
    assert(g4 == g.with_split_connection(id, neuron));
    assert forall|k: NeuronId| g.has_neuron(k) implies g4.has_neuron(k) by {
        assert(g1.has_neuron(k));
        assert(g2.has_neuron(k));
    }
    assert forall|n: int| g.keeps_leading_neurons(g4, n) by {
        assert(g1.keeps_leading_neurons(g2, n));
        assert forall|i: int| 0 <= i < n && i < g.neurons.len() implies (
        #[trigger] g4.neurons[i]).0 == g.neurons[i].0 by {
            assert(g2.neurons[i].0 == g1.neurons[i].0);
        }
    }
}

/// Routing a connection through a neuron that the genome did not have
/// replaces the connection by a path of the same weight: the connection is
/// gone, the first leg has weight one, the second the old weight, the new
/// neuron has zero bias, and every other connection keeps its weight.
pub proof fn lemma_split_connection_path(g: GenomeView, id: ConnectionId, neuron: NeuronId)
    requires
        g.wf(),
        g.has_connection(id),
        !g.has_neuron(neuron),
    ensures
        !g.with_split_connection(id, neuron).has_connection(id),
        g.with_split_connection(id, neuron).weight((id.0, neuron)) == Some(Real::one()),
        g.with_split_connection(id, neuron).weight((neuron, id.1)) == g.weight(id),
        g.with_split_connection(id, neuron).bias(neuron) == Some(Real::zero()),
        forall|c: ConnectionId|
            c != id && c != (id.0, neuron) && c != (neuron, id.1) ==> g.with_split_connection(
                id,
                neuron,
            ).weight(c) == g.weight(c),
        forall|k: NeuronId| k != neuron ==> g.with_split_connection(id, neuron).bias(k) == g.bias(k),
{
    let p = index_of(g.connections, id);
    let old_weight = g.connections[p].1.weight;
    assert(has_key(g.neurons, g.connections[p].0.0) && has_key(g.neurons, g.connections[p].0.1));
    assert(id.0 != neuron && id.1 != neuron);
    let g1 = g.without_connection(id);
    lemma_without_connection(g, id);
    assert(g1.has_neuron(id.0) && g1.has_neuron(id.1));
    let g2 = g1.with_neuron(neuron, Real::zero());
    lemma_with_neuron(g1, neuron, Real::zero());
    lemma_inserted(g1.neurons, neuron, NeuronGene { bias: Real::zero(), id: neuron });
    assert(g2.has_neuron(id.0) && g2.has_neuron(id.1));
    let g3 = g2.with_connection(id.0, neuron, Real::one());
    lemma_with_connection(g2, id.0, neuron, Real::one());
    let g4 = g3.with_connection(neuron, id.1, old_weight);
    lemma_with_connection(g3, neuron, id.1, old_weight);
    assert(g4 == g.with_split_connection(id, neuron));
    assert(g4.weight(id) == g1.weight(id)) by {
        assert(g3.weight(id) == g2.weight(id));
    }
    assert(g4.weight((id.0, neuron)) == g3.weight((id.0, neuron)));
    assert forall|c: ConnectionId|
        c != id && c != (id.0, neuron) && c != (neuron, id.1) implies g4.weight(c) == g.weight(
        c,
    ) by {
        assert(g4.weight(c) == g3.weight(c));
        assert(g3.weight(c) == g2.weight(c));
        assert(g1.weight(c) == g.weight(c));
    }
}

/// A draw selects a neuron of the genome.
pub proof fn lemma_drawn_neuron(g: GenomeView, draw: nat)
    requires
        g.neurons.len() > 0,
    ensures
        0 <= draw % g.neurons.len() < g.neurons.len(),
        g.has_neuron(g.drawn_neuron(draw)),
{
    let place = (draw % g.neurons.len()) as int;
    assert(g.neurons[place].0 == g.drawn_neuron(draw));
}

/// A draw selects a connection of the genome.
pub proof fn lemma_drawn_connection(g: GenomeView, draw: nat)
    requires
        g.connections.len() > 0,
    ensures
        0 <= draw % g.connections.len() < g.connections.len(),
        g.has_connection(g.drawn_connection(draw)),
{
    let place = (draw % g.connections.len()) as int;
    assert(g.connections[place].0 == g.drawn_connection(draw));
}

/// A draw among the removable neurons selects a neuron of the genome that
/// stands behind the first `sacred`.
pub proof fn lemma_drawn_removable_neuron(g: GenomeView, draw: nat, sacred: nat)
    requires
        distinct_keys(g.neurons),
        g.neurons.len() > sacred,
    ensures
        sacred <= draw % ((g.neurons.len() - sacred) as nat) + sacred < g.neurons.len(),
        g.has_neuron(g.drawn_removable_neuron(draw, sacred)),
        index_of(g.neurons, g.drawn_removable_neuron(draw, sacred)) >= sacred,
{
    let place = (draw % ((g.neurons.len() - sacred) as nat) + sacred) as int;
    assert(g.neurons[place].0 == g.drawn_removable_neuron(draw, sacred));
    lemma_index_of_unique(g.neurons, place);
}

/// Adding a connection between drawn neurons keeps the genome well formed
/// and its neurons as they are.
pub proof fn lemma_add_connection_drawn(g: GenomeView, in_draw: nat, out_draw: nat)
    requires
        g.wf(),
    ensures
        g.add_connection_drawn(in_draw, out_draw).wf(),
        g.add_connection_drawn(in_draw, out_draw).neurons == g.neurons,
{
    if g.neurons.len() != 0 {
        lemma_drawn_neuron(g, in_draw);
        lemma_drawn_neuron(g, out_draw);
        lemma_with_connection(g, g.drawn_neuron(in_draw), g.drawn_neuron(out_draw), Real::zero());
    }
}

/// Adding a neuron along a drawn connection keeps the genome well formed and
/// every neuron id in its place.
pub proof fn lemma_add_neuron_drawn(g: GenomeView, neuron: NeuronId, draw: nat)
    requires
        g.wf(),
    ensures
        g.add_neuron_drawn(neuron, draw).wf(),
        g.add_neuron_drawn(neuron, draw).has_neuron(neuron),
        forall|n: int| g.keeps_leading_neurons(g.add_neuron_drawn(neuron, draw), n),
{
    if g.connections.len() == 0 {
        lemma_with_neuron(g, neuron, Real::zero());
    } else {
        lemma_drawn_connection(g, draw);
        lemma_with_split_connection(g, g.drawn_connection(draw), neuron);
    }
}

/// Removing a neuron drawn from behind the first `sacred` keeps the genome
/// well formed and those first ids in their places.
pub proof fn lemma_remove_neuron_drawn(g: GenomeView, sacred: nat, draw: nat)
    requires
        g.wf(),
    ensures
        g.remove_neuron_drawn(sacred, draw).wf(),
        g.keeps_leading_neurons(g.remove_neuron_drawn(sacred, draw), sacred as int),
{
    if g.neurons.len() > sacred {
        lemma_drawn_removable_neuron(g, draw, sacred);
        lemma_without_neuron(g, g.drawn_removable_neuron(draw, sacred));
    }
}

/// Removing a drawn connection keeps the genome well formed and its neurons
/// as they are.
pub proof fn lemma_remove_connection_drawn(g: GenomeView, draw: nat)
    requires
        g.wf(),
    ensures
        g.remove_connection_drawn(draw).wf(),
        g.remove_connection_drawn(draw).neurons == g.neurons,
{
    if g.connections.len() != 0 {
        lemma_without_connection(g, g.drawn_connection(draw));
    }
}

/// Setting a connection twice is the same as setting it once to the later
/// weight.
pub proof fn lemma_with_connection_twice(
    g: GenomeView,
    from: NeuronId,
    to: NeuronId,
    first: Real,
    second: Real,
)
    requires
        distinct_keys(g.connections),
    ensures
        g.with_connection(from, to, first).with_connection(from, to, second) == g.with_connection(
            from,
            to,
            second,
        ),
{
    let k = (from, to);
    let v1 = ConnectionGene { in_neuron: from, out_neuron: to, weight: first };
    let v2 = ConnectionGene { in_neuron: from, out_neuron: to, weight: second };
    let s = g.connections;
    let once = inserted(s, k, v1);
    lemma_inserted(s, k, v1);
    if has_key(s, k) {
        let p = index_of(s, k);
        assert(once[p].0 == k);
        lemma_index_of_unique(once, p);
        assert(inserted(once, k, v2) =~= inserted(s, k, v2));
    } else {
        let p = s.len() as int;
        assert(once[p].0 == k);
        lemma_index_of_unique(once, p);
        assert(inserted(once, k, v2) =~= inserted(s, k, v2));
    }
}

} // verus!
