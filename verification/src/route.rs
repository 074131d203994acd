//! Variable-length circuits: an ordered list of hops; the client sends to the
//! first hop and the last hop is the exit. Relays forward without parsing.
use crate::addr::{NodeAddr, SocketAddress};
use vstd::prelude::*;

verus! {

/// Ordered path of hops.
#[derive(Debug, Clone, PartialEq, Eq)]
pub struct Route {
    pub hops: Vec<NodeAddr>,
}

impl Route {
    /// First hop (where the client sends).
    pub fn first_hop(&self) -> (r: Option<NodeAddr>)
        ensures
            r == (if self.hops@.len() > 0 { Some(self.hops@[0]) } else { None::<NodeAddr> }),
    {
        if self.hops.len() > 0 {
            Some(self.hops[0])
        } else {
            None
        }
    }

    /// Last hop (the exit).
    pub fn last_hop(&self) -> (r: Option<NodeAddr>)
        ensures
            r == (if self.hops@.len() > 0 { Some(self.hops@.last()) } else { None::<NodeAddr> }),
    {
        if self.hops.len() > 0 {
            Some(self.hops[self.hops.len() - 1])
        } else {
            None
        }
    }

    /// A copy of this route, hop for hop.
    pub fn duplicate(&self) -> (r: Route)
        ensures
            r.hops@ == self.hops@,
    {
        let mut hops: Vec<NodeAddr> = Vec::new();
        let mut i: usize = 0;
        while i < self.hops.len()
            invariant
                i <= self.hops@.len(),
                hops@ == self.hops@.take(i as int),
            decreases self.hops@.len() - i,
        {
            hops.push(self.hops[i]);
            i = i + 1;
            assert(hops@ =~= self.hops@.take(i as int));
        }
        assert(self.hops@.take(i as int) =~= self.hops@);
        Route { hops }
    }

    pub fn len(&self) -> (r: usize)
        ensures
            r == self.hops@.len(),
    {
        self.hops.len()
    }

    pub fn is_empty(&self) -> (r: bool)
        ensures
            r == (self.hops@.len() == 0),
    {
        self.hops.len() == 0
    }

    /// The hop after position `hop_index`; `None` at the last hop.
    pub fn next_hop(&self, hop_index: usize) -> (r: Option<NodeAddr>)
        ensures
            r == (if hop_index + 1 < self.hops@.len() {
                Some(self.hops@[hop_index + 1])
            } else {
                None::<NodeAddr>
            }),
    {
        if hop_index < self.hops.len() && hop_index + 1 < self.hops.len() {
            Some(self.hops[hop_index + 1])
        } else {
            None
        }
    }

    /// UDP endpoint of the first hop, if it is a UDP hop.
    pub fn first_hop_udp(&self) -> (r: Option<SocketAddress>)
        ensures
            r == (if self.hops@.len() > 0 {
                self.hops@[0].socket_addr_spec()
            } else {
                None::<SocketAddress>
            }),
    {
        if self.hops.len() > 0 {
            self.hops[0].as_socket_addr()
        } else {
            None
        }
    }

    /// UDP endpoint of the last hop, if it is a UDP hop.
    pub fn last_hop_udp(&self) -> (r: Option<SocketAddress>)
        ensures
            r == (if self.hops@.len() > 0 {
                self.hops@.last().socket_addr_spec()
            } else {
                None::<SocketAddress>
            }),
    {
        if self.hops.len() > 0 {
            self.hops[self.hops.len() - 1].as_socket_addr()
        } else {
            None
        }
    }
}

} // verus!
