//! Looking genes up by id.

use crate::nn::entries::{has_key, index_of, lemma_only_at, value_of};
use crate::nn::gene::{ConnectionGene, ConnectionId, NeuronGene, NeuronId};
use crate::nn::store::{
    connection_entries, connections_find, neuron_entries, neurons_find, ConnectionMap, NeuronMap,
};
use vstd::prelude::*;

verus! {

/// What a lookup of key `k` in `s` returns: the place and the value of the
/// entry with that key, or `None` where there is no such entry.
pub open spec fn found_in<K, V>(s: Seq<(K, V)>, k: K, found: Option<(usize, V)>) -> bool {
    match found {
        Some((i, v)) => {
            &&& has_key(s, k)
            &&& i == index_of(s, k)
            &&& s[i as int] == (k, v)
            &&& value_of(s, k) == Some(v)
        },
        None => !has_key(s, k) && value_of(s, k) is None,
    }
}

/// The place and the gene of neuron `id`, if the map has it.
pub fn find_neuron(neurons: &NeuronMap, id: NeuronId) -> (found: Option<(usize, NeuronGene)>)
    ensures
        found_in(neuron_entries(*neurons), id, found),
{
    let found = neurons_find(neurons, id);
    proof {
        if let Some((i, _)) = found {
            lemma_only_at(neuron_entries(*neurons), id, i as int);
        }
    }
    found
}

/// The place and the gene of connection `id`, if the map has it.
pub fn find_connection(connections: &ConnectionMap, id: ConnectionId) -> (found: Option<
    (usize, ConnectionGene),
>)
    ensures
        found_in(connection_entries(*connections), id, found),
{
    let found = connections_find(connections, id);
    proof {
        if let Some((i, _)) = found {
            lemma_only_at(connection_entries(*connections), id, i as int);
        }
    }
    found
}

} // verus!
