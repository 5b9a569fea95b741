//! Genomes of recurrent neural networks for topology-evolving neuroevolution.

pub mod nn;
