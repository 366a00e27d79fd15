//! A feed-forward neural-network trainer built on a verified dense-matrix
//! kernel. Matrices hold exact fixed-point scalars; every arithmetic
//! operation, the logistic squashing function, inference and the
//! mini-batch backpropagation step carry contracts that pin their results
//! down entry by entry. Weight initialisation runs on an injected,
//! deterministic generator so that a seed replays a whole training run.

pub mod activation;
pub mod fixed;
pub mod matrices;
pub mod network;
pub mod rng;
