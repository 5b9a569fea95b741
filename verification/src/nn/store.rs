//! The insertion-ordered maps that hold the genes.
//!
//! The maps are `indexmap::IndexMap`s. Nothing in this file is proved: each
//! function below is a thin call into that crate, and its contract restates
//! the crate's documentation over the sequence of entries that the map holds.

use crate::nn::entries::{has_key, inserted, only_at, swap_removed};
use crate::nn::gene::{ConnectionGene, ConnectionId, NeuronGene, NeuronId};
use indexmap::map::IndexMap;
use vstd::prelude::*;

verus! {

/// `indexmap::IndexMap`, taken as an opaque type: what a map holds is known
/// only through the functions below.
#[verifier::external_type_specification]
#[verifier::external_body]
#[verifier::reject_recursive_types(K)]
#[verifier::reject_recursive_types(V)]
#[verifier::reject_recursive_types(S)]
pub struct ExIndexMap<K, V, S>(IndexMap<K, V, S>);

/// Neuron genes by id, in insertion order.
pub type NeuronMap = IndexMap<NeuronId, NeuronGene>;

/// Connection genes by endpoints, in insertion order.
pub type ConnectionMap = IndexMap<ConnectionId, ConnectionGene>;

/// The entries of a neuron map, in the map's order.
pub uninterp spec fn neuron_entries(m: NeuronMap) -> Seq<(NeuronId, NeuronGene)>;

/// The entries of a connection map, in the map's order.
pub uninterp spec fn connection_entries(m: ConnectionMap) -> Seq<(ConnectionId, ConnectionGene)>;

/// `IndexMap::new`: a map without entries.
#[verifier::external_body]
pub(crate) fn neurons_new() -> (m: NeuronMap)
    ensures
        neuron_entries(m) == Seq::<(NeuronId, NeuronGene)>::empty(),
{
    IndexMap::new()
}

/// `IndexMap::len`: the number of entries.
#[verifier::external_body]
pub(crate) fn neurons_len(m: &NeuronMap) -> (n: usize)
    ensures
        n == neuron_entries(*m).len(),
{
    m.len()
}

/// `IndexMap::insert`: a key that is present keeps its place and takes the
/// new value, a key that is absent is appended.
#[verifier::external_body]
pub(crate) fn neurons_insert(m: &mut NeuronMap, k: NeuronId, v: NeuronGene)
    ensures
        neuron_entries(*final(m)) == inserted(neuron_entries(*old(m)), k, v),
{
    m.insert(k, v);
}

/// `IndexMap::get_full`: the index and value of the entry with key `k`, or
/// `None` when no entry has that key. A map holds a key once, so no other
/// entry than the one returned has the key.
#[verifier::external_body]
pub(crate) fn neurons_find(m: &NeuronMap, k: NeuronId) -> (found: Option<(usize, NeuronGene)>)
    ensures
        match found {
            Some((i, v)) => only_at(neuron_entries(*m), k, i as int) && neuron_entries(
                *m,
            )[i as int].1 == v,
            None => !has_key(neuron_entries(*m), k),
        },
{
    m.get_full(&k).map(|(i, _, v)| (i, *v))
}

/// `IndexMap::get_index`: the entry at index `i`, or `None` when `i` is not
/// below the length. A map holds a key once, so no other entry than the one
/// returned has its key.
#[verifier::external_body]
pub(crate) fn neurons_at(m: &NeuronMap, i: usize) -> (entry: Option<(NeuronId, NeuronGene)>)
    ensures
        entry == if i < neuron_entries(*m).len() {
            Some(neuron_entries(*m)[i as int])
        } else {
            None
        },
        entry matches Some((k, _)) ==> only_at(neuron_entries(*m), k, i as int),
{
    m.get_index(i).map(|(k, v)| (*k, *v))
}

/// `IndexMap::swap_remove`: the entry with key `k` is taken out and the last
/// entry moves into its place. A map without that key is left as it is.
#[verifier::external_body]
pub(crate) fn neurons_swap_remove(m: &mut NeuronMap, k: NeuronId)
    ensures
        neuron_entries(*final(m)) == swap_removed(neuron_entries(*old(m)), k),
{
    m.swap_remove(&k);
}

/// `IndexMap::clone`: a map with the same entries in the same order.
#[verifier::external_body]
pub(crate) fn neurons_clone(m: &NeuronMap) -> (copy: NeuronMap)
    ensures
        neuron_entries(copy) == neuron_entries(*m),
{
    m.clone()
}

/// `IndexMap::sort_keys`: the same entries, rearranged so that the keys
/// ascend.
#[verifier::external_body]
pub(crate) fn neurons_sort_keys(m: &mut NeuronMap)
    ensures
        neuron_entries(*final(m)).to_multiset() == neuron_entries(*old(m)).to_multiset(),
        forall|i: int, j: int|
            0 <= i < j < neuron_entries(*final(m)).len() ==> (#[trigger] neuron_entries(
                *final(m),
            )[i]).0 <= (#[trigger] neuron_entries(*final(m))[j]).0,
{
    m.sort_keys()
}

/// `IndexMap::new`: a map without entries.
#[verifier::external_body]
pub(crate) fn connections_new() -> (m: ConnectionMap)
    ensures
        connection_entries(m) == Seq::<(ConnectionId, ConnectionGene)>::empty(),
{
    IndexMap::new()
}

/// `IndexMap::len`: the number of entries.
#[verifier::external_body]
pub(crate) fn connections_len(m: &ConnectionMap) -> (n: usize)
    ensures
        n == connection_entries(*m).len(),
{
    m.len()
}

/// `IndexMap::insert`: a key that is present keeps its place and takes the
/// new value, a key that is absent is appended.
#[verifier::external_body]
pub(crate) fn connections_insert(m: &mut ConnectionMap, k: ConnectionId, v: ConnectionGene)
    ensures
        connection_entries(*final(m)) == inserted(connection_entries(*old(m)), k, v),
{
    m.insert(k, v);
}

/// `IndexMap::get_full`: the index and value of the entry with key `k`, or
/// `None` when no entry has that key. A map holds a key once, so no other
/// entry than the one returned has the key.
#[verifier::external_body]
pub(crate) fn connections_find(m: &ConnectionMap, k: ConnectionId) -> (found: Option<
    (usize, ConnectionGene),
>)
    ensures
        match found {
            Some((i, v)) => only_at(connection_entries(*m), k, i as int) && connection_entries(
                *m,
            )[i as int].1 == v,
            None => !has_key(connection_entries(*m), k),
        },
{
    m.get_full(&k).map(|(i, _, v)| (i, *v))
}

/// `IndexMap::get_index`: the entry at index `i`, or `None` when `i` is not
/// below the length. A map holds a key once, so no other entry than the one
/// returned has its key.
#[verifier::external_body]
pub(crate) fn connections_at(m: &ConnectionMap, i: usize) -> (entry: Option<
    (ConnectionId, ConnectionGene),
>)
    ensures
        entry == if i < connection_entries(*m).len() {
            Some(connection_entries(*m)[i as int])
        } else {
            None
        },
        entry matches Some((k, _)) ==> only_at(connection_entries(*m), k, i as int),
{
    m.get_index(i).map(|(k, v)| (*k, *v))
}

/// `IndexMap::swap_remove`: the entry with key `k` is taken out and the last
/// entry moves into its place. A map without that key is left as it is.
#[verifier::external_body]
pub(crate) fn connections_swap_remove(m: &mut ConnectionMap, k: ConnectionId)
    ensures
        connection_entries(*final(m)) == swap_removed(connection_entries(*old(m)), k),
{
    m.swap_remove(&k);
}

/// `IndexMap::clone`: a map with the same entries in the same order.
#[verifier::external_body]
pub(crate) fn connections_clone(m: &ConnectionMap) -> (copy: ConnectionMap)
    ensures
        connection_entries(copy) == connection_entries(*m),
{
    m.clone()
}

} // verus!
