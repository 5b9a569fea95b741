//! Mutation: adding and removing neurons and connections, and changing
//! biases and weights.
//!
//! Every choice that a mutation makes at random is a number drawn first and
//! handed on: the operations that take the draws are exact for every draw,
//! and the random mutations only draw and call them. Whether a mutation
//! happens at all is the caller's decision, handed to
//! [`NeuralNetwork::mutate`] as a [`Mutations`] value.

use crate::nn::NeuralNetwork;
use crate::nn::chance::random_usize;
use crate::nn::entries::{
    has_key, index_of, keys_of, lemma_inserted, lemma_same_leading_keys_chain, swap_removed,
    swap_removed_all,
};
use crate::nn::gene::{ConnectionGene, ConnectionId, NeuronGene, NeuronId, Real};
use crate::nn::lookup::find_connection;
use crate::nn::model::{
    lemma_add_connection_drawn, lemma_add_neuron_drawn, lemma_drawn_connection, lemma_drawn_neuron,
    lemma_drawn_removable_neuron, lemma_remove_connection_drawn, lemma_remove_neuron_drawn,
    lemma_with_connection, lemma_with_neuron, lemma_with_split_connection, lemma_without_connection,
    lemma_without_neuron, touching, GenomeView,
};
use crate::nn::store::{
    connection_entries, connections_at, connections_len, connections_swap_remove, neuron_entries,
    neurons_at, neurons_insert, neurons_len, neurons_swap_remove,
};
use vstd::pervasive::unreached;
use vstd::prelude::*;

verus! {

/// Which structural mutations one round applies.
#[derive(Clone, Copy, Debug, PartialEq, Eq, Structural)]
pub struct Mutations {
    pub add_connection: bool,
    pub add_neuron: bool,
    pub del_neuron: bool,
    pub del_connection: bool,
}

/// The numbers drawn for one round of mutation, one for each choice.
#[derive(Clone, Copy, Debug, PartialEq, Eq, Structural)]
pub struct Draws {
    /// Selects the source of the connection to add.
    pub in_neuron: usize,
    /// Selects the destination of the connection to add.
    pub out_neuron: usize,
    /// Selects the connection along which a neuron is added.
    pub split: usize,
    /// Selects the neuron to remove.
    pub neuron: usize,
    /// Selects the connection to remove.
    pub connection: usize,
}

/// The first step of a round: a connection is added where the plan says so,
/// and in any case to a genome without connections.
pub open spec fn after_add_connection(g: GenomeView, plan: Mutations, draws: Draws) -> GenomeView {
    if plan.add_connection || g.connections.len() == 0 {
        g.add_connection_drawn(draws.in_neuron as nat, draws.out_neuron as nat)
    } else {
        g
    }
}

/// The second step of a round: `neuron` is added where the plan says so.
pub open spec fn after_add_neuron(
    g: GenomeView,
    plan: Mutations,
    neuron: NeuronId,
    draws: Draws,
) -> GenomeView {
    if plan.add_neuron {
        g.add_neuron_drawn(neuron, draws.split as nat)
    } else {
        g
    }
}

/// The third step of a round: a neuron from behind the first `sacred` is
/// removed where the plan says so.
pub open spec fn after_del_neuron(
    g: GenomeView,
    plan: Mutations,
    sacred: nat,
    draws: Draws,
) -> GenomeView {
    if plan.del_neuron {
        g.remove_neuron_drawn(sacred, draws.neuron as nat)
    } else {
        g
    }
}

/// The fourth step of a round: a connection is removed where the plan says
/// so.
pub open spec fn after_del_connection(g: GenomeView, plan: Mutations, draws: Draws) -> GenomeView {
    if plan.del_connection {
        g.remove_connection_drawn(draws.connection as nat)
    } else {
        g
    }
}

/// The genome after one round of structural mutation: the four steps in
/// their order.
pub open spec fn mutated(
    g: GenomeView,
    plan: Mutations,
    neuron: NeuronId,
    sacred: nat,
    draws: Draws,
) -> GenomeView {
    after_del_connection(
        after_del_neuron(
            after_add_neuron(after_add_connection(g, plan, draws), plan, neuron, draws),
            plan,
            sacred,
            draws,
        ),
        plan,
        draws,
    )
}

/// `after` has the genes of `before` with some biases and weights changed:
/// the same ids in the same places.
pub open spec fn reparametrised(before: GenomeView, after: GenomeView) -> bool {
    &&& keys_of(after.neurons) == keys_of(before.neurons)
    &&& keys_of(after.connections) == keys_of(before.connections)
    &&& after.neurons_filed()
    &&& after.connections_filed()
}

/// `after` comes from `before` by one full round of mutation: the structural
/// steps of some plan with some draws, then changes to biases and weights.
pub open spec fn mutation_round(before: GenomeView, after: GenomeView, sacred: nat) -> bool {
    exists|plan: Mutations, neuron: NeuronId, draws: Draws|
        reparametrised(#[trigger] mutated(before, plan, neuron, sacred, draws), after)
}

/// Each genome of `history` comes from the one before it by one round of
/// mutation.
pub open spec fn mutation_history(history: Seq<GenomeView>, sacred: nat) -> bool {
    forall|i: int|
        0 <= i < history.len() - 1 ==> mutation_round(
            #[trigger] history[i],
            history[i + 1],
            sacred,
        )
}

/// One round of structural mutation keeps a genome well formed, so that no
/// connection dangles, and keeps its first `sacred` neuron ids where they
/// are.
pub proof fn lemma_mutated_keeps_invariants(
    before: GenomeView,
    plan: Mutations,
    neuron: NeuronId,
    sacred: nat,
    draws: Draws,
)
    requires
        before.wf(),
    ensures
        mutated(before, plan, neuron, sacred, draws).wf(),
        mutated(before, plan, neuron, sacred, draws).connected(),
        before.keeps_leading_neurons(mutated(before, plan, neuron, sacred, draws), sacred as int),
{
    let n = sacred as int;
    let s1 = after_add_connection(before, plan, draws);
    lemma_add_connection_drawn(before, draws.in_neuron as nat, draws.out_neuron as nat);
    assert(before.keeps_leading_neurons(s1, n));
    let s2 = after_add_neuron(s1, plan, neuron, draws);
    lemma_add_neuron_drawn(s1, neuron, draws.split as nat);
    assert(s1.keeps_leading_neurons(s2, n));
    let s3 = after_del_neuron(s2, plan, sacred, draws);
    lemma_remove_neuron_drawn(s2, sacred, draws.neuron as nat);
    assert(s2.keeps_leading_neurons(s3, n));
    let s4 = after_del_connection(s3, plan, draws);
    lemma_remove_connection_drawn(s3, draws.connection as nat);
    assert(s3.keeps_leading_neurons(s4, n));
    lemma_same_leading_keys_chain(before.neurons, s1.neurons, s2.neurons, n);
    lemma_same_leading_keys_chain(before.neurons, s2.neurons, s3.neurons, n);
    lemma_same_leading_keys_chain(before.neurons, s3.neurons, s4.neurons, n);
}

/// Changing biases and weights keeps a genome well formed and every neuron
/// id in its place.
pub proof fn lemma_reparametrised(before: GenomeView, after: GenomeView)
    requires
        before.wf(),
        reparametrised(before, after),
    ensures
        after.wf(),
        forall|n: int| before.keeps_leading_neurons(after, n),
{
    let bn = before.neurons;
    let an = after.neurons;
    let bc = before.connections;
    let ac = after.connections;
    assert(an.len() == bn.len()) by {
        assert(keys_of(an).len() == keys_of(bn).len());
    }
    assert(ac.len() == bc.len()) by {
        assert(keys_of(ac).len() == keys_of(bc).len());
    }
    assert forall|i: int| 0 <= i < an.len() implies (#[trigger] an[i]).0 == bn[i].0 by {
        assert(keys_of(an)[i] == keys_of(bn)[i]);
    }
    assert forall|i: int| 0 <= i < ac.len() implies (#[trigger] ac[i]).0 == bc[i].0 by {
        assert(keys_of(ac)[i] == keys_of(bc)[i]);
    }
    assert forall|i: int, j: int| 0 <= i < j < an.len() implies (#[trigger] an[i]).0 != (
    #[trigger] an[j]).0 by {
        assert(bn[i].0 != bn[j].0);
    }
    assert forall|i: int, j: int| 0 <= i < j < ac.len() implies (#[trigger] ac[i]).0 != (
    #[trigger] ac[j]).0 by {
        assert(bc[i].0 != bc[j].0);
    }
    assert forall|i: int| 0 <= i < ac.len() implies has_key(an, (#[trigger] ac[i]).0.0) && has_key(
        an,
        ac[i].0.1,
    ) by {
        assert(has_key(bn, bc[i].0.0) && has_key(bn, bc[i].0.1));
        let a = index_of(bn, bc[i].0.0);
        assert(an[a].0 == bc[i].0.0);
        let b = index_of(bn, bc[i].0.1);
        assert(an[b].0 == bc[i].0.1);
    }
}

/// After any sequence of mutations, every connection's endpoints are neurons
/// of the genome, and the first `sacred` neuron ids are still in their
/// places.
pub proof fn lemma_mutation_history_keeps_invariants(
    history: Seq<GenomeView>,
    sacred: nat,
    i: int,
)
    requires
        0 <= i < history.len(),
        history[0].wf(),
        mutation_history(history, sacred),
    ensures
        history[i].wf(),
        history[i].connected(),
        history[0].keeps_leading_neurons(history[i], sacred as int),
    decreases i,
{
    if i > 0 {
        lemma_mutation_history_keeps_invariants(history, sacred, i - 1);
        let before = history[i - 1];
        let after = history[i];
        assert(mutation_round(before, after, sacred));
        let (plan, neuron, draws) = choose|plan: Mutations, neuron: NeuronId, draws: Draws|
            reparametrised(#[trigger] mutated(before, plan, neuron, sacred, draws), after);
        let structure = mutated(before, plan, neuron, sacred, draws);
        lemma_mutated_keeps_invariants(before, plan, neuron, sacred, draws);
        lemma_reparametrised(structure, after);
        assert(structure.keeps_leading_neurons(after, sacred as int));
        lemma_same_leading_keys_chain(
            before.neurons,
            structure.neurons,
            after.neurons,
            sacred as int,
        );
        lemma_same_leading_keys_chain(
            history[0].neurons,
            before.neurons,
            after.neurons,
            sacred as int,
        );
    }
}

impl NeuralNetwork {
    /// The neuron id that a draw selects: the one at place `draw` modulo the
    /// number of neurons.
    pub fn pick_neuron(&self, draw: usize) -> (id: NeuronId)
        requires
            self@.neurons.len() > 0,
        ensures
            id == self@.drawn_neuron(draw as nat),
            self@.has_neuron(id),
    {
        proof {
            lemma_drawn_neuron(self@, draw as nat);
        }
        let n: usize = neurons_len(&self.neurons);
        match neurons_at(&self.neurons, draw % n) {
            Some((id, _)) => id,
            None => unreached(),
        }
    }

    /// The connection id that a draw selects: the one at place `draw` modulo
    /// the number of connections.
    pub fn pick_connection(&self, draw: usize) -> (id: ConnectionId)
        requires
            self@.connections.len() > 0,
        ensures
            id == self@.drawn_connection(draw as nat),
            self@.has_connection(id),
    {
        proof {
            lemma_drawn_connection(self@, draw as nat);
        }
        let n: usize = connections_len(&self.connections);
        match connections_at(&self.connections, draw % n) {
            Some((id, _)) => id,
            None => unreached(),
        }
    }

    /// The neuron id that a draw selects among those behind the first
    /// `sacred_neurons`: the one at place `sacred_neurons` plus `draw` modulo
    /// their number.
    pub fn pick_removable_neuron(&self, draw: usize, sacred_neurons: usize) -> (id: NeuronId)
        requires
            self@.neurons.len() > sacred_neurons,
        ensures
            id == self@.drawn_removable_neuron(draw as nat, sacred_neurons as nat),
    {
        let n: usize = neurons_len(&self.neurons);
        let idx: usize = draw % (n - sacred_neurons) + sacred_neurons;
        match neurons_at(&self.neurons, idx) {
            Some((id, _)) => id,
            None => unreached(),
        }
    }

    /// Sets the bias of a neuron of the genome, which keeps its place.
    pub fn set_bias(&mut self, id: NeuronId, bias: Real)
        requires
            old(self).wf(),
            old(self)@.has_neuron(id),
        ensures
            final(self)@ == old(self)@.with_neuron(id, bias),
            reparametrised(old(self)@, final(self)@),
            final(self).wf(),
    {
        neurons_insert(&mut self.neurons, id, NeuronGene::new(bias, id));
        proof {
            lemma_with_neuron(old(self)@, id, bias);
            lemma_inserted(old(self)@.neurons, id, NeuronGene { bias, id });
            assert(keys_of(self@.neurons) == keys_of(old(self)@.neurons));
        }
    }

    /// Sets the weight of a connection of the genome, which keeps its place.
    pub fn set_weight(&mut self, id: ConnectionId, weight: Real)
        requires
            old(self).wf(),
            old(self)@.has_connection(id),
        ensures
            final(self)@ == old(self)@.with_connection(id.0, id.1, weight),
            reparametrised(old(self)@, final(self)@),
            final(self).wf(),
    {
        let ghost before = self@;
        proof {
            let p = index_of(before.connections, id);
            assert(before.has_neuron(before.connections[p].0.0) && before.has_neuron(
                before.connections[p].0.1,
            ));
            lemma_inserted(
                before.connections,
                id,
                ConnectionGene { in_neuron: id.0, out_neuron: id.1, weight },
            );
        }
        self.add_connection(id.0, id.1, weight);
        proof {
            assert(keys_of(self@.connections) == keys_of(before.connections));
        }
    }

    /// Removes a connection; the last connection takes its place. A genome
    /// without that connection stays as it is.
    pub fn remove_connection(&mut self, id: ConnectionId)
        requires
            old(self).wf(),
        ensures
            final(self)@ == old(self)@.without_connection(id),
            final(self).wf(),
    {
        connections_swap_remove(&mut self.connections, id);
        proof {
            lemma_without_connection(old(self)@, id);
        }
    }

    /// Removes a neuron and every connection into or out of it. A genome
    /// without that neuron stays as it is.
    pub fn remove_neuron(&mut self, id: NeuronId)
        requires
            old(self).wf(),
        ensures
            final(self)@ == old(self)@.without_neuron(id),
            final(self).wf(),
    {
        let ghost before = self@;
        neurons_swap_remove(&mut self.neurons, id);
        let n: usize = connections_len(&self.connections);
        let mut to_remove: Vec<ConnectionId> = Vec::new();
        let mut i: usize = 0;
        while i < n
            invariant
                i <= n,
                n == before.connections.len(),
                connection_entries(self.connections) == before.connections,
                neuron_entries(self.neurons) == swap_removed(before.neurons, id),
                to_remove@ == touching(before.connections.subrange(0, i as int), id),
            decreases n - i,
        {
            match connections_at(&self.connections, i) {
                Some((conn_id, _)) => {
                    if conn_id.0 == id || conn_id.1 == id {
                        to_remove.push(conn_id);
                    }
                },
                None => {},
            }
            proof {
                let upto = before.connections.subrange(0, i + 1);
                assert(upto.drop_last() == before.connections.subrange(0, i as int));
                assert(upto.last() == before.connections[i as int]);
            }
            i += 1;
        }
        proof {
            assert(before.connections.subrange(0, n as int) == before.connections);
        }
        let mut j: usize = 0;
        while j < to_remove.len()
            invariant
                j <= to_remove.len(),
                connection_entries(self.connections) == swap_removed_all(
                    before.connections,
                    to_remove@.subrange(0, j as int),
                ),
                neuron_entries(self.neurons) == swap_removed(before.neurons, id),
            decreases to_remove.len() - j,
        {
            connections_swap_remove(&mut self.connections, to_remove[j]);
            proof {
                let upto = to_remove@.subrange(0, j + 1);
                assert(upto.drop_last() == to_remove@.subrange(0, j as int));
                assert(upto.last() == to_remove@[j as int]);
            }
            j += 1;
        }
        proof {
            assert(to_remove@.subrange(0, j as int) == to_remove@);
            lemma_without_neuron(before, id);
        }
    }

    /// Routes a connection through a new neuron: the connection is removed,
    /// `neuron` enters with zero bias, and two connections lead through it,
    /// the first with weight one, the second with the removed weight.
    pub fn split_connection(&mut self, id: ConnectionId, neuron: NeuronId)
        requires
            old(self).wf(),
            old(self)@.has_connection(id),
        ensures
            final(self)@ == old(self)@.with_split_connection(id, neuron),
            final(self).wf(),
    {
        let ghost before = self@;
        let old_connection = match find_connection(&self.connections, id) {
            Some((_, gene)) => gene,
            None => unreached(),
        };
        connections_swap_remove(&mut self.connections, id);
        let new_neuron = NeuronGene::new(Real::zero(), neuron);
        neurons_insert(&mut self.neurons, new_neuron.id(), new_neuron);
        proof {
            let p = index_of(before.connections, id);
            assert(before.has_neuron(before.connections[p].0.0) && before.has_neuron(
                before.connections[p].0.1,
            ));
            lemma_without_connection(before, id);
            let g1 = before.without_connection(id);
            assert(g1.has_neuron(id.0) && g1.has_neuron(id.1));
            lemma_with_neuron(g1, neuron, Real::zero());
            let g2 = g1.with_neuron(neuron, Real::zero());
            assert(self@ == g2);
            assert(g2.has_neuron(id.0) && g2.has_neuron(id.1));
            lemma_with_connection(g2, id.0, neuron, Real::one());
            lemma_with_split_connection(before, id, neuron);
        }
        self.add_connection(old_connection.in_neuron_id(), new_neuron.id(), Real::one());
        self.add_connection(new_neuron.id(), old_connection.out_neuron_id(), old_connection.weight);
    }

    /// Sets a zero-weight connection between the two neurons that the draws
    /// select: a self-loop may come out, and a connection that exists has
    /// its weight reset. Does nothing to a genome without neurons.
    pub fn add_drawn_connection(&mut self, in_draw: usize, out_draw: usize)
        requires
            old(self).wf(),
        ensures
            final(self)@ == old(self)@.add_connection_drawn(in_draw as nat, out_draw as nat),
            final(self).wf(),
    {
        if neurons_len(&self.neurons) == 0 {
            return ;
        }
        let in_neuron_id = self.pick_neuron(in_draw);
        let out_neuron_id = self.pick_neuron(out_draw);
        self.add_connection(in_neuron_id, out_neuron_id, Real::zero());
    }

    /// Removes the connection that the draw selects. Does nothing to a
    /// genome without connections.
    pub fn remove_drawn_connection(&mut self, draw: usize)
        requires
            old(self).wf(),
        ensures
            final(self)@ == old(self)@.remove_connection_drawn(draw as nat),
            final(self).wf(),
    {
        if connections_len(&self.connections) > 0 {
            let selected_gene = self.pick_connection(draw);
            self.remove_connection(selected_gene);
        }
    }

    /// Adds neuron `innovation_id` along the connection that the draw
    /// selects, or on its own when the genome has no connection.
    pub fn add_drawn_neuron(&mut self, innovation_id: usize, draw: usize)
        requires
            old(self).wf(),
        ensures
            final(self)@ == old(self)@.add_neuron_drawn(innovation_id, draw as nat),
            final(self).wf(),
    {
        if connections_len(&self.connections) == 0 {
            let gene = NeuronGene::new(Real::zero(), innovation_id);
            neurons_insert(&mut self.neurons, gene.id(), gene);
            proof {
                lemma_with_neuron(old(self)@, innovation_id, Real::zero());
            }
        } else {
            let old_connection_id = self.pick_connection(draw);
            self.split_connection(old_connection_id, innovation_id);
        }
    }

    /// Removes the neuron that the draw selects from behind the first
    /// `sacred_neurons`, with every connection that touches it. Does nothing
    /// to a genome with no neuron behind them.
    pub fn remove_drawn_neuron(&mut self, sacred_neurons: usize, draw: usize)
        requires
            old(self).wf(),
        ensures
            final(self)@ == old(self)@.remove_neuron_drawn(sacred_neurons as nat, draw as nat),
            final(self).wf(),
    {
        if neurons_len(&self.neurons) <= sacred_neurons {
            return ;
        }
        let id = self.pick_removable_neuron(draw, sacred_neurons);
        self.remove_neuron(id);
    }

    /// One round of structural mutation with the draws given, in this order:
    /// add a connection (in any case when the genome has none), add neuron
    /// `innovation_id`, remove a neuron from behind the first
    /// `sacred_neurons`, remove a connection. `plan` says which of them
    /// happen. Adding a neuron uses up `innovation_id`.
    pub fn mutate_with(
        &mut self,
        innovation_id: &mut usize,
        sacred_neurons: usize,
        plan: Mutations,
        draws: Draws,
    )
        requires
            old(self).wf(),
            plan.add_neuron ==> *old(innovation_id) < usize::MAX,
        ensures
            final(self)@ == mutated(
                old(self)@,
                plan,
                *old(innovation_id),
                sacred_neurons as nat,
                draws,
            ),
            final(self).wf(),
            old(self)@.keeps_leading_neurons(final(self)@, sacred_neurons as int),
            *final(innovation_id) == *old(innovation_id) + if plan.add_neuron {
                1int
            } else {
                0int
            },
    {
        if plan.add_connection || connections_len(&self.connections) == 0 {
            self.add_drawn_connection(draws.in_neuron, draws.out_neuron);
        }
        if plan.add_neuron {
            self.add_drawn_neuron(*innovation_id, draws.split);
            *innovation_id += 1;
        }
        if plan.del_neuron {
            self.remove_drawn_neuron(sacred_neurons, draws.neuron);
        }
        if plan.del_connection {
            self.remove_drawn_connection(draws.connection);
        }
        proof {
            lemma_mutated_keeps_invariants(
                old(self)@,
                plan,
                *old(innovation_id),
                sacred_neurons as nat,
                draws,
            );
        }
    }

    /// Sets a zero-weight connection between two neurons drawn at random,
    /// independently: a self-loop may come out, and a connection that exists
    /// has its weight reset. Does nothing to a genome without neurons.
    pub fn mutate_add_connection(&mut self)
        requires
            old(self).wf(),
        ensures
            exists|in_draw: nat, out_draw: nat|
                final(self)@ == #[trigger] old(self)@.add_connection_drawn(in_draw, out_draw),
            final(self).wf(),
    {
        let in_draw = random_usize();
        let out_draw = random_usize();
        self.add_drawn_connection(in_draw, out_draw);
        assert(self@ == old(self)@.add_connection_drawn(in_draw as nat, out_draw as nat));
    }

    /// Removes one connection drawn at random. Does nothing to a genome
    /// without connections.
    pub fn mutate_del_conn(&mut self)
        requires
            old(self).wf(),
        ensures
            exists|draw: nat| final(self)@ == #[trigger] old(self)@.remove_connection_drawn(draw),
            final(self).wf(),
    {
        let draw = random_usize();
        self.remove_drawn_connection(draw);
        assert(self@ == old(self)@.remove_connection_drawn(draw as nat));
    }

    /// Adds neuron `innovation_id` along a connection drawn at random, or on
    /// its own when the genome has no connection.
    pub fn mutate_add_neuron(&mut self, innovation_id: usize)
        requires
            old(self).wf(),
        ensures
            exists|draw: nat|
                final(self)@ == #[trigger] old(self)@.add_neuron_drawn(innovation_id, draw),
            final(self).wf(),
    {
        let draw = random_usize();
        self.add_drawn_neuron(innovation_id, draw);
        assert(self@ == old(self)@.add_neuron_drawn(innovation_id, draw as nat));
    }

    /// Removes one neuron drawn at random from behind the first
    /// `sacred_neurons`, with every connection that touches it. Does nothing
    /// to a genome with no neuron behind them.
    pub fn mutate_del_neuron(&mut self, sacred_neurons: usize)
        requires
            old(self).wf(),
        ensures
            exists|draw: nat|
                final(self)@ == #[trigger] old(self)@.remove_neuron_drawn(
                    sacred_neurons as nat,
                    draw,
                ),
            final(self).wf(),
    {
        let draw = random_usize();
        self.remove_drawn_neuron(sacred_neurons, draw);
        assert(self@ == old(self)@.remove_neuron_drawn(sacred_neurons as nat, draw as nat));
    }

    /// One round of structural mutation with every choice drawn at random;
    /// see [`NeuralNetwork::mutate_with`].
    pub fn mutate(&mut self, innovation_id: &mut usize, sacred_neurons: usize, plan: Mutations)
        requires
            old(self).wf(),
            plan.add_neuron ==> *old(innovation_id) < usize::MAX,
        ensures
            exists|draws: Draws|
                final(self)@ == #[trigger] mutated(
                    old(self)@,
                    plan,
                    *old(innovation_id),
                    sacred_neurons as nat,
                    draws,
                ),
            final(self).wf(),
            old(self)@.keeps_leading_neurons(final(self)@, sacred_neurons as int),
            *final(innovation_id) == *old(innovation_id) + if plan.add_neuron {
                1int
            } else {
                0int
            },
    {
        let draws = Draws {
            in_neuron: random_usize(),
            out_neuron: random_usize(),
            split: random_usize(),
            neuron: random_usize(),
            connection: random_usize(),
        };
        self.mutate_with(innovation_id, sacred_neurons, plan, draws);
        assert(self@ == mutated(
            old(self)@,
            plan,
            *old(innovation_id),
            sacred_neurons as nat,
            draws,
        ));
    }
}

} // verus!
