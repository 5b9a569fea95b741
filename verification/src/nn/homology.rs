//! Which genes two genomes share: the counting half of the compatibility
//! distance.
//!
//! The distance of two gene maps is
//! `(disjoint * c_disjoint + sum * c_weight) / max_genes`, where `sum` adds
//! the parameter differences of the homologous pairs. This module finds the
//! pairs and the two counts; the real arithmetic on them is the caller's.

use crate::nn::entries::{
    distinct_keys, has_key, index_of, lemma_index_of_unique, lemma_value_of_drop_last, value_of,
};
use crate::nn::gene::{ConnectionGene, NeuronGene};
use crate::nn::lookup::{find_connection, find_neuron};
use crate::nn::store::{
    connection_entries, connections_at, connections_len, neuron_entries, neurons_at, neurons_len,
    ConnectionMap, NeuronMap,
};
use vstd::prelude::*;

verus! {

/// The homologous pairs of `a` and `b`: for each gene of `a`, in order, whose
/// id `b` knows, that gene and the gene of `b` with the same id.
pub open spec fn common_genes<K, V>(a: Seq<(K, V)>, b: Seq<(K, V)>) -> Seq<(V, V)>
    decreases a.len(),
{
    if a.len() == 0 {
        Seq::empty()
    } else {
        match value_of(b, a.last().0) {
            Some(other) => common_genes(a.drop_last(), b).push((a.last().1, other)),
            None => common_genes(a.drop_last(), b),
        }
    }
}

/// The number of genes that only one of `a` and `b` has.
pub open spec fn disjoint_genes<K, V>(a: Seq<(K, V)>, b: Seq<(K, V)>) -> int {
    a.len() + b.len() - 2 * common_genes(a, b).len()
}

/// The size of the larger of `a` and `b`.
pub open spec fn max_genes<K, V>(a: Seq<(K, V)>, b: Seq<(K, V)>) -> int {
    if a.len() >= b.len() {
        a.len() as int
    } else {
        b.len() as int
    }
}

/// The pairs of `s` with the two genes of each pair exchanged.
pub open spec fn exchanged<V>(s: Seq<(V, V)>) -> Seq<(V, V)> {
    Seq::new(s.len(), |i: int| (s[i].1, s[i].0))
}

/// What two gene maps share, as far as it can be counted.
pub struct Homology<G> {
    /// The homologous pairs, first the gene of the first map.
    pub common: Vec<(G, G)>,
    /// The number of disjoint and excess genes.
    pub disjoint: usize,
    /// The size of the larger map.
    pub max_genes: usize,
}

impl<G> Homology<G> {
    /// This value describes `a` against `b`.
    pub open spec fn describes<K>(self, a: Seq<(K, G)>, b: Seq<(K, G)>) -> bool {
        &&& self.common@ == common_genes(a, b)
        &&& self.disjoint == disjoint_genes(a, b)
        &&& self.max_genes == max_genes(a, b)
    }
}

/// There are no more pairs than genes in the first map.
pub proof fn lemma_common_genes_len<K, V>(a: Seq<(K, V)>, b: Seq<(K, V)>)
    ensures
        common_genes(a, b).len() <= a.len(),
    decreases a.len(),
{
    if a.len() > 0 {
        lemma_common_genes_len(a.drop_last(), b);
    }
}

/// Nothing is shared with an empty map.
proof fn lemma_common_genes_none<K, V>(a: Seq<(K, V)>, b: Seq<(K, V)>)
    requires
        b.len() == 0,
    ensures
        common_genes(a, b).len() == 0,
    decreases a.len(),
{
    if a.len() > 0 {
        lemma_common_genes_none(a.drop_last(), b);
    }
}

/// One more gene in the second map adds one pair exactly when the first map
/// knows its id.
proof fn lemma_common_genes_grow<K, V>(a: Seq<(K, V)>, b: Seq<(K, V)>)
    requires
        distinct_keys(a),
        distinct_keys(b),
        b.len() > 0,
    ensures
        common_genes(a, b).len() == common_genes(a, b.drop_last()).len() + if has_key(
            a,
            b.last().0,
        ) {
            1int
        } else {
            0int
        },
    decreases a.len(),
{
    let k = b.last().0;
    let front = b.drop_last();
    if a.len() > 0 {
        let rest = a.drop_last();
        let e = a.last();
        lemma_common_genes_grow(rest, b);
        // The id of `e` is in `b` exactly when it is in `front` or is `k`.
        assert(has_key(b, e.0) <==> (has_key(front, e.0) || e.0 == k)) by {
            if has_key(b, e.0) {
                let i = index_of(b, e.0);
                if i < front.len() {
                    assert(front[i].0 == e.0);
                }
            }
            if has_key(front, e.0) {
                let i = index_of(front, e.0);
                assert(b[i].0 == e.0);
            }
            if e.0 == k {
                assert(b[b.len() - 1].0 == k);
            }
        }
        assert(!(has_key(front, e.0) && e.0 == k)) by {
            if has_key(front, e.0) && e.0 == k {
                let i = index_of(front, e.0);
                assert(b[i].0 != b[b.len() - 1].0);
            }
        }
        // The id `k` is in `a` exactly when it is in `rest` or is the id of `e`.
        assert(has_key(a, k) <==> (has_key(rest, k) || e.0 == k)) by {
            if has_key(a, k) {
                let i = index_of(a, k);
                if i < rest.len() {
                    assert(rest[i].0 == k);
                }
            }
            if has_key(rest, k) {
                let i = index_of(rest, k);
                assert(a[i].0 == k);
            }
            if e.0 == k {
                assert(a[a.len() - 1].0 == k);
            }
        }
        assert(!(has_key(rest, k) && e.0 == k)) by {
            if has_key(rest, k) && e.0 == k {
                let i = index_of(rest, k);
                assert(a[i].0 != a[a.len() - 1].0);
            }
        }
    } else {
        assert(!has_key(a, k));
    }
}

/// Two maps share as many genes one way round as the other, so the counts
/// that enter their distance do not depend on which map comes first.
pub proof fn lemma_homology_symmetric<K, V>(a: Seq<(K, V)>, b: Seq<(K, V)>)
    requires
        distinct_keys(a),
        distinct_keys(b),
    ensures
        common_genes(a, b).len() == common_genes(b, a).len(),
        disjoint_genes(a, b) == disjoint_genes(b, a),
        max_genes(a, b) == max_genes(b, a),
        0 <= disjoint_genes(a, b) <= a.len() + b.len(),
    decreases a.len(),
{
    if a.len() == 0 {
        lemma_common_genes_none(b, a);
    } else {
        lemma_homology_symmetric(a.drop_last(), b);
        lemma_common_genes_grow(b, a);
    }
    lemma_common_genes_len(a, b);
    lemma_common_genes_len(b, a);
}

/// One more gene in the second map adds the pair that it forms with its
/// homologue in the first map, if there is one, and no other pair.
proof fn lemma_common_genes_grow_pairs<K, V>(a: Seq<(K, V)>, b: Seq<(K, V)>)
    requires
        distinct_keys(a),
        distinct_keys(b),
        b.len() > 0,
    ensures
        common_genes(a, b).to_multiset() == match value_of(a, b.last().0) {
            Some(own) => common_genes(a, b.drop_last()).to_multiset().insert((own, b.last().1)),
            None => common_genes(a, b.drop_last()).to_multiset(),
        },
    decreases a.len(),
{
    let k = b.last().0;
    let front = b.drop_last();
    if a.len() > 0 {
        let rest = a.drop_last();
        let e = a.last();
        lemma_common_genes_grow_pairs(rest, b);
        lemma_value_of_drop_last(a, k);
        lemma_value_of_drop_last(b, e.0);
        common_genes(rest, b).to_multiset_ensures();
        common_genes(rest, front).to_multiset_ensures();
        if e.0 == k {
            assert(value_of(rest, k) is None);
            assert(value_of(front, e.0) is None);
            assert(common_genes(a, front) == common_genes(rest, front));
            assert(common_genes(a, b) == common_genes(rest, b).push((e.1, b.last().1)));
        } else {
            assert(value_of(front, e.0) == value_of(b, e.0));
            assert(value_of(rest, k) == value_of(a, k));
            match value_of(b, e.0) {
                Some(other) => {
                    assert(common_genes(a, b) == common_genes(rest, b).push((e.1, other)));
                    assert(common_genes(a, front) == common_genes(rest, front).push(
                        (e.1, other),
                    ));
                    match value_of(a, k) {
                        Some(own) => {
                            let base = common_genes(rest, front).to_multiset();
                            assert(base.insert((own, b.last().1)).insert((e.1, other))
                                =~= base.insert((e.1, other)).insert((own, b.last().1)));
                        },
                        None => {},
                    }
                },
                None => {},
            }
        }
    } else {
        assert(!has_key(a, k));
    }
}

/// The homologous pairs of two maps are the same one way round as the other,
/// up to their order and to which gene of a pair comes first.
pub proof fn lemma_homology_pairs_symmetric<K, V>(a: Seq<(K, V)>, b: Seq<(K, V)>)
    requires
        distinct_keys(a),
        distinct_keys(b),
    ensures
        common_genes(b, a).to_multiset() == exchanged(common_genes(a, b)).to_multiset(),
    decreases a.len(),
{
    if a.len() == 0 {
        lemma_common_genes_none(b, a);
        assert(common_genes(b, a) =~= exchanged(common_genes(a, b)));
    } else {
        let rest = a.drop_last();
        let e = a.last();
        lemma_value_of_drop_last(a, e.0);
        lemma_homology_pairs_symmetric(rest, b);
        lemma_common_genes_grow_pairs(b, a);
        exchanged(common_genes(rest, b)).to_multiset_ensures();
        match value_of(b, e.0) {
            Some(other) => {
                assert(exchanged(common_genes(a, b)) =~= exchanged(common_genes(rest, b)).push(
                    (other, e.1),
                ));
            },
            None => {},
        }
    }
}

/// The first `m` genes of a map, compared with the map itself, are each
/// paired with themselves.
proof fn lemma_common_genes_own_prefix<K, V>(a: Seq<(K, V)>, m: int)
    requires
        distinct_keys(a),
        0 <= m <= a.len(),
    ensures
        common_genes(a.subrange(0, m), a) == Seq::new(m as nat, |i: int| (a[i].1, a[i].1)),
    decreases m,
{
    let prefix = a.subrange(0, m);
    if m > 0 {
        lemma_common_genes_own_prefix(a, m - 1);
        assert(prefix.drop_last() == a.subrange(0, m - 1));
        assert(prefix.last() == a[m - 1]);
        lemma_index_of_unique(a, m - 1);
        assert(common_genes(prefix, a) == Seq::new(m as nat, |i: int| (a[i].1, a[i].1)));
    } else {
        assert(common_genes(prefix, a) == Seq::new(m as nat, |i: int| (a[i].1, a[i].1)));
    }
}

/// A map compared with itself has no disjoint gene, and pairs each gene with
/// itself.
pub proof fn lemma_homology_reflexive<K, V>(a: Seq<(K, V)>)
    requires
        distinct_keys(a),
    ensures
        disjoint_genes(a, a) == 0,
        common_genes(a, a) == Seq::new(a.len(), |i: int| (a[i].1, a[i].1)),
{
    lemma_common_genes_own_prefix(a, a.len() as int);
    assert(a.subrange(0, a.len() as int) == a);
}

/// Finds what two neuron maps share.
pub fn neuron_homology(genome1: &NeuronMap, genome2: &NeuronMap) -> (shared: Homology<NeuronGene>)
    requires
        distinct_keys(neuron_entries(*genome1)),
        distinct_keys(neuron_entries(*genome2)),
        neuron_entries(*genome1).len() + neuron_entries(*genome2).len() <= usize::MAX,
    ensures
        shared.describes(neuron_entries(*genome1), neuron_entries(*genome2)),
{
    let ghost a = neuron_entries(*genome1);
    let ghost b = neuron_entries(*genome2);
    let n1: usize = neurons_len(genome1);
    let n2: usize = neurons_len(genome2);
    let mut common: Vec<(NeuronGene, NeuronGene)> = Vec::new();
    let mut i: usize = 0;
    while i < n1
        invariant
            i <= n1,
            n1 == a.len(),
            a == neuron_entries(*genome1),
            b == neuron_entries(*genome2),
            distinct_keys(b),
            common@ == common_genes(a.subrange(0, i as int), b),
        decreases n1 - i,
    {
        match neurons_at(genome1, i) {
            Some((id, gene)) => {
                match find_neuron(genome2, id) {
                    Some((_, other_gene)) => {
                        common.push((gene, other_gene));
                    },
                    None => {},
                }
            },
            None => {},
        }
        proof {
            let upto = a.subrange(0, i + 1);
            assert(upto.drop_last() == a.subrange(0, i as int));
            assert(upto.last() == a[i as int]);
        }
        i += 1;
    }
    proof {
        assert(a.subrange(0, n1 as int) == a);
        lemma_homology_symmetric(a, b);
    }
    Homology {
        disjoint: n1 + n2 - 2 * common.len(),
        max_genes: if n1 >= n2 {
            n1
        } else {
            n2
        },
        common,
    }
}

/// Finds what two connection maps share.
pub fn connection_homology(genome1: &ConnectionMap, genome2: &ConnectionMap) -> (shared: Homology<
    ConnectionGene,
>)
    requires
        distinct_keys(connection_entries(*genome1)),
        distinct_keys(connection_entries(*genome2)),
        connection_entries(*genome1).len() + connection_entries(*genome2).len() <= usize::MAX,
    ensures
        shared.describes(connection_entries(*genome1), connection_entries(*genome2)),
{
    let ghost a = connection_entries(*genome1);
    let ghost b = connection_entries(*genome2);
    let n1: usize = connections_len(genome1);
    let n2: usize = connections_len(genome2);
    let mut common: Vec<(ConnectionGene, ConnectionGene)> = Vec::new();
    let mut i: usize = 0;
    while i < n1
        invariant
            i <= n1,
            n1 == a.len(),
            a == connection_entries(*genome1),
            b == connection_entries(*genome2),
            distinct_keys(b),
            common@ == common_genes(a.subrange(0, i as int), b),
        decreases n1 - i,
    {
        match connections_at(genome1, i) {
            Some((id, gene)) => {
                match find_connection(genome2, id) {
                    Some((_, other_gene)) => {
                        common.push((gene, other_gene));
                    },
                    None => {},
                }
            },
            None => {},
        }
        proof {
            let upto = a.subrange(0, i + 1);
            assert(upto.drop_last() == a.subrange(0, i as int));
            assert(upto.last() == a[i as int]);
        }
        i += 1;
    }
    proof {
        assert(a.subrange(0, n1 as int) == a);
        lemma_homology_symmetric(a, b);
    }
    Homology {
        disjoint: n1 + n2 - 2 * common.len(),
        max_genes: if n1 >= n2 {
            n1
        } else {
            n2
        },
        common,
    }
}

} // verus!
