//! Node advertisements exchanged by discovery.
use crate::addr::NodeAddr;
use crate::node_config::NodeRole;
use vstd::prelude::*;

verus! {

/// A node's identity: 32 bytes.
pub type NodeId = [u8; 32];

/// A node announcing its role and address, valid for `ttl_ms` after `advertised_at_ms`.
#[derive(Debug, Clone)]
pub struct NodeAdvertisement {
    pub node_id: NodeId,
    pub role: NodeRole,
    pub addr: NodeAddr,
    pub version: String,
    pub advertised_at_ms: u64,
    pub ttl_ms: u64,
}

impl NodeAdvertisement {
    pub open spec fn expiry(&self) -> u64 {
        if self.advertised_at_ms + self.ttl_ms > u64::MAX {
            u64::MAX
        } else {
            (self.advertised_at_ms + self.ttl_ms) as u64
        }
    }

    pub open spec fn fresh_at(&self, now_ms: u64) -> bool {
        now_ms <= self.expiry()
    }

    /// When the advertisement expires (saturating).
    pub fn expires_at_ms(&self) -> (r: u64)
        ensures
            r == self.expiry(),
    {
        self.advertised_at_ms.saturating_add(self.ttl_ms)
    }

    /// Still valid at `now_ms` (up to and including its expiry).
    pub fn is_fresh(&self, now_ms: u64) -> (r: bool)
        ensures
            r == self.fresh_at(now_ms),
    {
        now_ms <= self.expires_at_ms()
    }

    /// An identical copy.
    pub fn duplicate(&self) -> (r: Self)
        ensures
            r == *self,
    {
        NodeAdvertisement {
            node_id: self.node_id,
            role: self.role,
            addr: self.addr,
            version: self.version.clone(),
            advertised_at_ms: self.advertised_at_ms,
            ttl_ms: self.ttl_ms,
        }
    }
}

} // verus!
