//! Keys of the pheromone trail: which transport toward which destination class a
//! reinforcement or decay applies to. The trail scores themselves are kept by the node.
use crate::addr::Protocol;
use vstd::prelude::*;

verus! {

/// Destination class, protocol and port of a pheromone entry.
#[derive(Debug, Clone, Copy, PartialEq, Eq, Hash, Structural)]
pub struct PheromoneKey {
    pub dest_hint: u64,
    pub protocol: Protocol,
    pub port: u16,
}

/// The destination class used for every route: a single global bucket.
pub fn default_dest_hint() -> (r: u64)
    ensures
        r == 0,
{
    0
}

/// The pheromone key of a transport.
pub fn key_for_transport(protocol: Protocol, port: u16) -> (r: PheromoneKey)
    ensures
        r == (PheromoneKey { dest_hint: 0, protocol, port }),
{
    PheromoneKey { dest_hint: default_dest_hint(), protocol, port }
}

} // verus!
