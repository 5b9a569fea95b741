//! Layout of a continuous-time recurrent neural network.
//!
//! The network's state `y` follows
//! `dy/dt = (1/tau) * (W * sigmoid(y - theta) - y + I)`, integrated in steps
//! of `delta_t` from `y = 0`. This module fixes where each number stands:
//! the parameters, the input vector built from the sensors, and the part of
//! the state that is read as output. Integrating is floating-point work and
//! is done on these vectors by the caller.

use crate::nn::gene::Real;
use vstd::prelude::*;

verus! {

/// The parameters of a network of `n` neurons.
#[derive(Debug)]
pub struct Ctrnn {
    /// Bias of each neuron.
    pub theta: Vec<Real>,
    /// Time constant of each neuron.
    pub tau: Vec<Real>,
    /// Weights, row by row: row is the destination neuron, column the source.
    pub wij: Vec<Real>,
    /// Length of one integration step.
    pub delta_t: Real,
    /// Number of integration steps of one activation.
    pub steps: usize,
}

/// `len` copies of `value`.
pub open spec fn repeated(value: Real, len: nat) -> Seq<Real> {
    Seq::new(len, |i: int| value)
}

/// The input vector of a network of `n` neurons: the sensor values in the
/// first places, as far as there are places, and zero in the rest.
pub open spec fn padded(sensors: Seq<Real>, n: nat) -> Seq<Real> {
    Seq::new(
        n,
        |i: int|
            if i < sensors.len() {
                sensors[i]
            } else {
                Real::zero()
            },
    )
}

/// How many entries of a state of length `state` go into `outputs` places.
pub open spec fn read_count(outputs: nat, state: nat) -> nat {
    if outputs <= state {
        outputs
    } else {
        state
    }
}

/// `outputs` after reading a state: its first places hold the last entries of
/// `y`, as many as both have; further places keep what they held.
pub open spec fn with_outputs(outputs: Seq<Real>, y: Seq<Real>) -> Seq<Real> {
    let m = read_count(outputs.len(), y.len());
    Seq::new(
        outputs.len(),
        |i: int|
            if i < m {
                y[y.len() - m + i]
            } else {
                outputs[i]
            },
    )
}

/// A vector of `len` copies of `value`.
pub fn filled(value: Real, len: usize) -> (v: Vec<Real>)
    ensures
        v@ == repeated(value, len as nat),
{
    let mut v: Vec<Real> = Vec::new();
    let mut i: usize = 0;
    while i < len
        invariant
            i <= len,
            v@ == repeated(value, i as nat),
        decreases len - i,
    {
        v.push(value);
        assert(v@ == repeated(value, (i + 1) as nat));
        i += 1;
    }
    v
}

impl Ctrnn {
    /// The parameter vectors fit together: one bias and one time constant
    /// per neuron, one weight per pair of neurons.
    pub open spec fn wf(&self) -> bool {
        &&& self.tau@.len() == self.theta@.len()
        &&& self.wij@.len() == self.theta@.len() * self.theta@.len()
    }

    /// A network with these parameters.
    pub fn new(
        theta: Vec<Real>,
        tau: Vec<Real>,
        wij: Vec<Real>,
        delta_t: Real,
        steps: usize,
    ) -> (network: Ctrnn)
        ensures
            network.theta == theta,
            network.tau == tau,
            network.wij == wij,
            network.delta_t == delta_t,
            network.steps == steps,
    {
        Ctrnn { theta, tau, wij, delta_t, steps }
    }

    /// Number of neurons.
    pub fn n_neurons(&self) -> (n: usize)
        ensures
            n == self.theta@.len(),
    {
        self.theta.len()
    }

    /// The input vector for these sensor values: sensors beyond the number
    /// of neurons are ignored, neurons beyond the number of sensors get zero.
    pub fn sensor_input(&self, sensors: &Vec<Real>) -> (input: Vec<Real>)
        ensures
            input@ == padded(sensors@, self.theta@.len()),
    {
        let n: usize = self.theta.len();
        let mut input: Vec<Real> = Vec::new();
        let mut i: usize = 0;
        while i < n
            invariant
                i <= n,
                input@ == padded(sensors@, i as nat),
            decreases n - i,
        {
            if i < sensors.len() {
                input.push(sensors[i]);
            } else {
                input.push(Real::zero());
            }
            assert(input@ == padded(sensors@, (i + 1) as nat));
            i += 1;
        }
        input
    }

    /// Reads the outputs off a state: the last entries of `y`, in order, go
    /// into the first places of `outputs`.
    pub fn write_outputs(y: &Vec<Real>, outputs: &mut Vec<Real>)
        ensures
            final(outputs)@ == with_outputs(old(outputs)@, y@),
    {
        let m: usize = if outputs.len() <= y.len() {
            outputs.len()
        } else {
            y.len()
        };
        let start: usize = y.len() - m;
        let mut i: usize = 0;
        while i < m
            invariant
                i <= m,
                m == read_count(old(outputs)@.len(), y@.len()),
                start + m == y.len(),
                outputs@.len() == old(outputs)@.len(),
                forall|j: int| 0 <= j < i ==> outputs@[j] == y@[start + j],
                forall|j: int| i <= j < outputs@.len() ==> outputs@[j] == old(outputs)@[j],
            decreases m - i,
        {
            outputs[i] = y[start + i];
            i += 1;
        }
        assert(outputs@ == with_outputs(old(outputs)@, y@));
    }
}

} // verus!
