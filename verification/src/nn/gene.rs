//! Neuron and connection genes.

use vstd::prelude::*;

verus! {

/// Handle of a neuron, unique within a run.
pub type NeuronId = usize;

/// Ordered pair `(in_neuron, out_neuron)` naming a connection. Self-loops
/// are allowed.
pub type ConnectionId = (usize, usize);

/// A real number carried as the bit pattern of an IEEE-754 double.
///
/// The genome stores, copies and places these values but never computes with
/// them; arithmetic is the business of whoever interprets the bits.
#[derive(Clone, Copy, Debug, PartialEq, Eq, Structural)]
pub struct Real {
    pub bits: u64,
}

impl Real {
    /// The number with the given bit pattern.
    pub fn from_bits(bits: u64) -> (r: Real)
        ensures
            r.bits == bits,
    {
        Real { bits }
    }

    /// The bit pattern of this number.
    pub fn to_bits(self) -> (bits: u64)
        ensures
            bits == self.bits,
    {
        self.bits
    }

    /// Positive zero, whose pattern has no bit set.
    pub open spec fn spec_zero() -> Real {
        Real { bits: 0 }
    }

    /// One: sign 0, biased exponent 1023, empty fraction.
    pub open spec fn spec_one() -> Real {
        Real { bits: 0x3ff0_0000_0000_0000 }
    }

    /// Positive zero.
    #[verifier::when_used_as_spec(spec_zero)]
    pub fn zero() -> (r: Real)
        ensures
            r == Real::spec_zero(),
    {
        Real { bits: 0 }
    }

    /// One.
    #[verifier::when_used_as_spec(spec_one)]
    pub fn one() -> (r: Real)
        ensures
            r == Real::spec_one(),
    {
        Real { bits: 0x3ff0_0000_0000_0000 }
    }
}

/// Gene of one neuron. Two neuron genes are homologous when their ids are
/// equal.
#[derive(Clone, Copy, Debug, PartialEq, Eq, Structural)]
pub struct NeuronGene {
    pub bias: Real,
    pub id: NeuronId,
}

impl NeuronGene {
    pub fn new(bias: Real, id: NeuronId) -> (gene: NeuronGene)
        ensures
            gene == (NeuronGene { bias, id }),
    {
        NeuronGene { bias, id }
    }

    /// The id under which the genome files this gene.
    pub fn id(&self) -> (id: NeuronId)
        ensures
            id == self.id,
    {
        self.id
    }
}

/// Gene of one connection. Two connection genes are homologous when their
/// endpoints match.
#[derive(Clone, Copy, Debug, PartialEq, Eq, Structural)]
pub struct ConnectionGene {
    pub in_neuron: NeuronId,
    pub out_neuron: NeuronId,
    pub weight: Real,
}

impl ConnectionGene {
    pub fn new(in_neuron: NeuronId, out_neuron: NeuronId, weight: Real) -> (gene: ConnectionGene)
        ensures
            gene == (ConnectionGene { in_neuron, out_neuron, weight }),
    {
        ConnectionGene { in_neuron, out_neuron, weight }
    }

    /// The pair of endpoints, as the genome keys this gene.
    pub open spec fn spec_id(&self) -> ConnectionId {
        (self.in_neuron, self.out_neuron)
    }

    /// The id under which the genome files this gene.
    #[verifier::when_used_as_spec(spec_id)]
    pub fn id(&self) -> (id: ConnectionId)
        ensures
            id == self.spec_id(),
    {
        (self.in_neuron, self.out_neuron)
    }

    /// The neuron the connection reads from.
    pub fn in_neuron_id(&self) -> (id: NeuronId)
        ensures
            id == self.in_neuron,
    {
        self.in_neuron
    }

    /// The neuron the connection feeds.
    pub fn out_neuron_id(&self) -> (id: NeuronId)
        ensures
            id == self.out_neuron,
    {
        self.out_neuron
    }
}

} // verus!
