//! Secure multi-party computation: a prime field, Shamir sharing, SPDZ with MACs and
//! Beaver triples, Path ORAM, a hash-based proof system over computation traces, and the
//! node-side message, session and job logic.
use vstd::prelude::*;

pub mod field;
pub mod primality;
pub mod polynomial;
pub mod mac;
pub mod spdz;
pub mod shamir;
pub mod beaver;
pub mod oram;
pub mod utils;
pub mod air;
pub mod text;
pub mod clock;
pub mod prover;
pub mod verification;
pub mod message;
pub mod session;
pub mod node;
pub mod keyed;
pub mod coordinator;
pub mod network;
pub mod causal;
mod random;

verus! {
} // verus!
