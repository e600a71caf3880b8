//! A layer-4 (TCP) load-balancing proxy library.
//!
//! The crate holds the decision logic of the proxy: configuration shapes,
//! the per-endpoint connection state machine, resolver snapshot handling
//! with weight normalization, endpoint selection, and waiter admission.
//! Listening, connecting and byte forwarding are left to the embedding
//! program, which drives this library with plain values.

use vstd::prelude::*;

pub mod balancer;
pub mod buf;
pub mod config;
pub mod connector;
pub mod endpoint;
pub mod metrics;
pub mod resolver;

verus! {

/// Weights are fixed-point fractions with this denominator: a weight of
/// `UNIT_WEIGHT` stands for 1.0.
pub const UNIT_WEIGHT: u64 = 1_000_000;

/// A socket address: an IP (v4 addresses are embedded in the low 32 bits)
/// and a port.
#[derive(Clone, Copy, PartialEq, Eq, Structural, Hash, Debug)]
pub struct Addr {
    pub ip: u128,
    pub port: u16,
}

/// An address together with its normalized weight, as emitted by the
/// resolver: `weight` is a fraction of `UNIT_WEIGHT`.
#[derive(Clone, Copy, PartialEq, Eq, Structural, Debug)]
pub struct WeightedAddr {
    pub addr: Addr,
    pub weight: u64,
}

impl WeightedAddr {
    pub fn new(addr: Addr, weight: u64) -> (r: WeightedAddr)
        ensures
            r.addr == addr,
            r.weight == weight,
    {
        WeightedAddr { addr, weight }
    }
}

} // verus!
