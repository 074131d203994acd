//! Bidirectional flow table: TCP/UDP flows of the TUN device to tunnel stream ids, with
//! idle-timeout cleanup. Flows are filed under a 104-bit code of their five fields.
use crate::packet::FlowKey;
use std::collections::HashMap;
use vstd::prelude::*;
use vstd::std_specs::iter::IteratorSpec;

verus! {

broadcast use vstd::std_specs::hash::group_hash_axioms;

pub open spec fn ip_word(a: [u8; 4]) -> u32 {
    ((a[0] as u32) << 24u32) | ((a[1] as u32) << 16u32) | ((a[2] as u32) << 8u32) | (a[3] as u32)
}

/// The code of a flow: source and destination address, ports and protocol, packed.
pub open spec fn flow_code(k: FlowKey) -> u128 {
    ((ip_word(k.src) as u128) << 72u128) | ((ip_word(k.dst) as u128) << 40u128) | ((k.src_port as u128) << 24u128)
        | ((k.dst_port as u128) << 8u128) | (k.protocol as u128)
}

proof fn lemma_code_fields(s: u32, d: u32, sp: u16, dp: u16, p: u8)
    ensures
        ({
            let c = ((s as u128) << 72u128) | ((d as u128) << 40u128) | ((sp as u128) << 24u128) | ((dp as u128)
                << 8u128) | (p as u128);
            &&& ((c >> 72u128) & 0xffff_ffffu128) as u32 == s
            &&& ((c >> 40u128) & 0xffff_ffffu128) as u32 == d
            &&& ((c >> 24u128) & 0xffffu128) as u16 == sp
            &&& ((c >> 8u128) & 0xffffu128) as u16 == dp
            &&& (c & 0xffu128) as u8 == p
        }),
{
    assert({
        let c = ((s as u128) << 72u128) | ((d as u128) << 40u128) | ((sp as u128) << 24u128) | ((dp as u128)
            << 8u128) | (p as u128);
        &&& ((c >> 72u128) & 0xffff_ffffu128) as u32 == s
        &&& ((c >> 40u128) & 0xffff_ffffu128) as u32 == d
        &&& ((c >> 24u128) & 0xffffu128) as u16 == sp
        &&& ((c >> 8u128) & 0xffffu128) as u16 == dp
        &&& (c & 0xffu128) as u8 == p
    }) by (bit_vector);
}

proof fn lemma_word_bytes(b0: u8, b1: u8, b2: u8, b3: u8)
    ensures
        ({
            let w = ((b0 as u32) << 24u32) | ((b1 as u32) << 16u32) | ((b2 as u32) << 8u32) | (b3 as u32);
            &&& (w >> 24u32) as u8 == b0
            &&& ((w >> 16u32) & 0xffu32) as u8 == b1
            &&& ((w >> 8u32) & 0xffu32) as u8 == b2
            &&& (w & 0xffu32) as u8 == b3
        }),
{
    assert({
        let w = ((b0 as u32) << 24u32) | ((b1 as u32) << 16u32) | ((b2 as u32) << 8u32) | (b3 as u32);
        &&& (w >> 24u32) as u8 == b0
        &&& ((w >> 16u32) & 0xffu32) as u8 == b1
        &&& ((w >> 8u32) & 0xffu32) as u8 == b2
        &&& (w & 0xffu32) as u8 == b3
    }) by (bit_vector);
}

proof fn lemma_ip_word_injective(a: [u8; 4], b: [u8; 4])
    requires
        ip_word(a) == ip_word(b),
    ensures
        a == b,
{
    lemma_word_bytes(a[0], a[1], a[2], a[3]);
    lemma_word_bytes(b[0], b[1], b[2], b[3]);
    assert(a@ =~= b@);
}

/// Different flows have different codes.
pub proof fn lemma_flow_code_injective(a: FlowKey, b: FlowKey)
    requires
        flow_code(a) == flow_code(b),
    ensures
        a == b,
{
    lemma_code_fields(ip_word(a.src), ip_word(a.dst), a.src_port, a.dst_port, a.protocol);
    lemma_code_fields(ip_word(b.src), ip_word(b.dst), b.src_port, b.dst_port, b.protocol);
    lemma_ip_word_injective(a.src, b.src);
    lemma_ip_word_injective(a.dst, b.dst);
}

fn code_of(k: &FlowKey) -> (r: u128)
    ensures
        r == flow_code(*k),
{
    let s: u32 = ((k.src[0] as u32) << 24u32) | ((k.src[1] as u32) << 16u32) | ((k.src[2] as u32) << 8u32)
        | (k.src[3] as u32);
    let d: u32 = ((k.dst[0] as u32) << 24u32) | ((k.dst[1] as u32) << 16u32) | ((k.dst[2] as u32) << 8u32)
        | (k.dst[3] as u32);
    ((s as u128) << 72u128) | ((d as u128) << 40u128) | ((k.src_port as u128) << 24u128) | ((k.dst_port as u128)
        << 8u128) | (k.protocol as u128)
}

/// A flow's stream id and when it was last seen (milliseconds).
#[derive(Debug, Clone, Copy)]
pub struct FlowEntry {
    pub stream_id: u32,
    pub last_seen: u64,
    pub key: FlowKey,
}

/// Flows to stream ids and back.
#[derive(Debug)]
pub struct FlowTable {
    flow_to_stream: HashMap<u128, FlowEntry>,
    stream_to_flow: HashMap<u32, FlowKey>,
}

impl FlowTable {
    /// The flows: stream id and last-seen time of each.
    pub closed spec fn flows(&self) -> Map<FlowKey, (u32, u64)> {
        Map::new(
            |k: FlowKey| self.flow_to_stream@.contains_key(flow_code(k)),
            |k: FlowKey| (self.flow_to_stream@[flow_code(k)].stream_id, self.flow_to_stream@[flow_code(k)].last_seen),
        )
    }

    /// The flow of each stream id.
    pub closed spec fn streams(&self) -> Map<u32, FlowKey> {
        self.stream_to_flow@
    }

    /// Number of flows.
    pub closed spec fn flow_count(&self) -> nat {
        self.flow_to_stream@.len()
    }

    /// Every filed entry sits under its flow's code; every stream id leads to a flow that
    /// carries that id.
    pub closed spec fn wf(&self) -> bool {
        &&& forall|c: u128| #[trigger]
            self.flow_to_stream@.contains_key(c) ==> c == flow_code(self.flow_to_stream@[c].key)
        &&& forall|id: u32| #[trigger]
            self.stream_to_flow@.contains_key(id) ==> self.flow_to_stream@.contains_key(
                flow_code(self.stream_to_flow@[id]),
            ) && self.flow_to_stream@[flow_code(self.stream_to_flow@[id])].stream_id == id
    }

    pub proof fn lemma_streams_lead_to_flows(&self)
        requires
            self.wf(),
        ensures
            forall|id: u32| #[trigger]
                self.streams().contains_key(id) ==> self.flows().contains_key(self.streams()[id])
                    && self.flows()[self.streams()[id]].0 == id,
    {
    }

    /// The flow count is the number of flows.
    pub proof fn lemma_flow_count_is_flows(&self)
        requires
            self.wf(),
        ensures
            self.flows().dom().finite(),
            self.flow_count() == self.flows().dom().len(),
    {
        let codes = self.flow_to_stream@.dom();
        vstd::std_specs::hash::axiom_hashmap_view_finite_dom(self.flow_to_stream);
        let keys = self.flows().dom();
        let g = |c: u128| self.flow_to_stream@[c].key;
        assert forall|k: FlowKey| keys.contains(k) implies codes.map(g).contains(k) by {
            let c = flow_code(k);
            assert(codes.contains(c));
            let e = self.flow_to_stream@[c];
            assert(c == flow_code(e.key));
            lemma_flow_code_injective(e.key, k);
            assert(g(c) == k);
        }
        assert forall|k: FlowKey| codes.map(g).contains(k) implies keys.contains(k) by {
            let c = choose|c: u128| codes.contains(c) && k == g(c);
            assert(c == flow_code(self.flow_to_stream@[c].key));
        }
        assert(keys =~= codes.map(g));
        codes.lemma_map_finite(g);
        let fc = |k: FlowKey| flow_code(k);
        let km = keys.map(fc);
        assert forall|c: u128| codes.contains(c) implies #[trigger] km.contains(c) by {
            let e = self.flow_to_stream@[c];
            assert(keys.contains(e.key));
            assert(fc(e.key) == c);
        }
        assert(km =~= codes);
        assert(vstd::relations::injective_on(fc, keys)) by {
            assert forall|a: FlowKey, b: FlowKey| keys.contains(a) && keys.contains(b) && #[trigger] fc(a) == #[trigger] fc(b)
                implies a == b by {
                lemma_flow_code_injective(a, b);
            }
        }
        vstd::set_lib::lemma_map_size(keys, codes, fc);
    }

    pub fn new() -> (r: Self)
        ensures
            r.wf(),
            r.flows() == Map::<FlowKey, (u32, u64)>::empty(),
            r.streams() == Map::<u32, FlowKey>::empty(),
            r.flow_count() == 0,
    {
        let r = FlowTable { flow_to_stream: HashMap::new(), stream_to_flow: HashMap::new() };
        assert(r.flows() =~= Map::<FlowKey, (u32, u64)>::empty());
        r
    }

    /// The stream id of `key`, refreshing its last-seen time; a new flow takes the id
    /// `*next_stream_id`, which then advances.
    pub fn get_or_create(&mut self, key: FlowKey, next_stream_id: &mut u32, now: u64) -> (r: u32)
        requires
            old(self).wf(),
            !old(self).flows().contains_key(key) ==> *old(next_stream_id) < u32::MAX,
        ensures
            final(self).wf(),
            old(self).flows().contains_key(key) ==> {
                &&& r == old(self).flows()[key].0
                &&& *final(next_stream_id) == *old(next_stream_id)
                &&& final(self).flows() == old(self).flows().insert(key, (r, now))
                &&& final(self).streams() == old(self).streams()
            },
            !old(self).flows().contains_key(key) ==> {
                &&& r == *old(next_stream_id)
                &&& *final(next_stream_id) == *old(next_stream_id) + 1
                &&& final(self).flows() == old(self).flows().insert(key, (r, now))
                &&& final(self).streams() == old(self).streams().insert(r, key)
            },
    {
        let c = code_of(&key);
        let existing = match self.flow_to_stream.get(&c) {
            Some(e) => Some(e.stream_id),
            None => None,
        };
        match existing {
            Some(id) => {
                self.flow_to_stream.insert(c, FlowEntry { stream_id: id, last_seen: now, key });
                proof {
                    assert(self.flows() =~= old(self).flows().insert(key, (id, now))) by {
                        assert forall|k: FlowKey| #[trigger] self.flow_to_stream@.contains_key(flow_code(k))
                            && flow_code(k) == c implies k == key by {
                            lemma_flow_code_injective(k, key);
                        }
                    }
                }
                id
            },
            None => {
                let id = *next_stream_id;
                *next_stream_id = id + 1;
                self.flow_to_stream.insert(c, FlowEntry { stream_id: id, last_seen: now, key });
                self.stream_to_flow.insert(id, key);
                proof {
                    assert(self.flows() =~= old(self).flows().insert(key, (id, now))) by {
                        assert forall|k: FlowKey| #[trigger] self.flow_to_stream@.contains_key(flow_code(k))
                            && flow_code(k) == c implies k == key by {
                            lemma_flow_code_injective(k, key);
                        }
                    }
                    assert forall|j: u32| #[trigger] self.stream_to_flow@.contains_key(j) implies self.flow_to_stream@.contains_key(
                        flow_code(self.stream_to_flow@[j]),
                    ) && self.flow_to_stream@[flow_code(self.stream_to_flow@[j])].stream_id == j by {
                        if j != id {
                            assert(old(self).stream_to_flow@.contains_key(j));
                            assert(flow_code(self.stream_to_flow@[j]) != c);
                        }
                    }
                }
                id
            },
        }
    }

    /// The flow of stream `stream_id`.
    /// Whether `key` has a flow.
    pub fn has_flow(&self, key: &FlowKey) -> (r: bool)
        ensures
            r == self.flows().contains_key(*key),
    {
        let c = code_of(key);
        self.flow_to_stream.contains_key(&c)
    }

    pub fn get_flow_for_stream(&self, stream_id: u32) -> (r: Option<FlowKey>)
        ensures
            r == (if self.streams().contains_key(stream_id) {
                Some(self.streams()[stream_id])
            } else {
                None::<FlowKey>
            }),
    {
        match self.stream_to_flow.get(&stream_id) {
            Some(k) => Some(*k),
            None => None,
        }
    }

    /// Mark the flow of stream `stream_id` as seen at `now`.
    pub fn touch_by_stream(&mut self, stream_id: u32, now: u64)
        requires
            old(self).wf(),
        ensures
            final(self).wf(),
            final(self).streams() == old(self).streams(),
            old(self).streams().contains_key(stream_id) ==> final(self).flows() == old(self).flows().insert(
                old(self).streams()[stream_id],
                (stream_id, now),
            ),
            !old(self).streams().contains_key(stream_id) ==> final(self).flows() == old(self).flows(),
    {
        let flow = match self.stream_to_flow.get(&stream_id) {
            Some(k) => *k,
            None => return,
        };
        let c = code_of(&flow);
        let cur = match self.flow_to_stream.get(&c) {
            Some(e) => *e,
            None => return,
        };
        self.flow_to_stream.insert(c, FlowEntry { stream_id: cur.stream_id, last_seen: now, key: cur.key });
        proof {
            assert(self.flows() =~= old(self).flows().insert(flow, (stream_id, now))) by {
                assert forall|k: FlowKey| #[trigger] self.flow_to_stream@.contains_key(flow_code(k))
                    && flow_code(k) == c implies k == flow by {
                    lemma_flow_code_injective(k, flow);
                }
            }
        }
    }

    /// Remove the mapping of flow `key` (both directions).
    pub fn remove_by_flow(&mut self, key: &FlowKey)
        requires
            old(self).wf(),
        ensures
            final(self).wf(),
            final(self).flows() == old(self).flows().remove(*key),
            old(self).flows().contains_key(*key) ==> final(self).streams() == old(self).streams().remove(
                old(self).flows()[*key].0,
            ),
            !old(self).flows().contains_key(*key) ==> final(self).streams() == old(self).streams(),
    {
        let c = code_of(key);
        if let Some(entry) = self.flow_to_stream.remove(&c) {
            self.stream_to_flow.remove(&entry.stream_id);
            proof {
                assert forall|j: u32| #[trigger] self.stream_to_flow@.contains_key(j) implies self.flow_to_stream@.contains_key(
                    flow_code(self.stream_to_flow@[j]),
                ) && self.flow_to_stream@[flow_code(self.stream_to_flow@[j])].stream_id == j by {
                    assert(old(self).stream_to_flow@.contains_key(j));
                }
            }
        }
        proof {
            assert(self.flows() =~= old(self).flows().remove(*key)) by {
                assert forall|k: FlowKey| #[trigger] old(self).flow_to_stream@.contains_key(flow_code(k))
                    && flow_code(k) == c implies k == *key by {
                    lemma_flow_code_injective(k, *key);
                }
            }
        }
    }

    /// Remove the mapping of stream `stream_id` (both directions).
    pub fn remove_by_stream(&mut self, stream_id: u32)
        requires
            old(self).wf(),
        ensures
            final(self).wf(),
            final(self).streams() == old(self).streams().remove(stream_id),
            old(self).streams().contains_key(stream_id) ==> final(self).flows() == old(self).flows().remove(
                old(self).streams()[stream_id],
            ),
            !old(self).streams().contains_key(stream_id) ==> final(self).flows() == old(self).flows(),
    {
        if let Some(flow) = self.stream_to_flow.remove(&stream_id) {
            let c = code_of(&flow);
            self.flow_to_stream.remove(&c);
            proof {
                assert forall|j: u32| #[trigger] self.stream_to_flow@.contains_key(j) implies self.flow_to_stream@.contains_key(
                    flow_code(self.stream_to_flow@[j]),
                ) && self.flow_to_stream@[flow_code(self.stream_to_flow@[j])].stream_id == j by {
                    assert(old(self).stream_to_flow@.contains_key(j));
                    assert(j != stream_id);
                }
                assert(self.flows() =~= old(self).flows().remove(flow)) by {
                    assert forall|k: FlowKey| #[trigger] old(self).flow_to_stream@.contains_key(flow_code(k))
                        && flow_code(k) == c implies k == flow by {
                        lemma_flow_code_injective(k, flow);
                    }
                }
            }
        }
    }

    /// Remove the flows idle for at least `max_idle` at `now` (none when `max_idle` is 0),
    /// with the stream ids they carry; returns how many flows were removed.
    #[verifier::rlimit(100)]
    #[verifier::spinoff_prover]
    pub fn prune_idle(&mut self, max_idle: u64, now: u64) -> (r: usize)
        requires
            old(self).wf(),
        ensures
            final(self).wf(),
            max_idle == 0 ==> r == 0 && final(self).flows() == old(self).flows() && final(self).streams()
                == old(self).streams(),
            max_idle > 0 ==> {
                &&& forall|k: FlowKey| #[trigger]
                    final(self).flows().contains_key(k) <==> old(self).flows().contains_key(k) && !idle(
                        old(self).flows()[k].1,
                        now,
                        max_idle,
                    )
                &&& forall|k: FlowKey| #[trigger] final(self).flows().contains_key(k) ==> final(self).flows()[k]
                    == old(self).flows()[k]
                &&& forall|id: u32| #[trigger]
                    final(self).streams().contains_key(id) <==> old(self).streams().contains_key(id) && !stream_of_idle_flow(
                        old(self).flows(),
                        id,
                        now,
                        max_idle,
                    )
                &&& forall|id: u32| #[trigger] final(self).streams().contains_key(id) ==> final(self).streams()[id]
                    == old(self).streams()[id]
                &&& r == old(self).flow_count() - final(self).flow_count()
                &&& r == old(self).flows().dom().len() - final(self).flows().dom().len()
            },
    {
        if max_idle == 0 {
            return 0;
        }
        let ghost old_f = self.flow_to_stream@;
        let ghost old_s = self.stream_to_flow@;
        let entries = flow_entries(&self.flow_to_stream);
        let mut removed: Vec<(u128, u32)> = Vec::new();
        let mut i: usize = 0;
        while i < entries.len()
            invariant
                self.flow_to_stream@ == old_f,
                self.stream_to_flow@ == old_s,
                i <= entries@.len(),
                forall|j: int| 0 <= j < entries@.len() ==> old_f.contains_key(#[trigger] entries@[j].0)
                    && old_f[entries@[j].0] == entries@[j].1,
                forall|a: int, b: int|
                    0 <= a < b < entries@.len() ==> #[trigger] entries@[a].0 != #[trigger] entries@[b].0,
                forall|j: int| 0 <= j < removed@.len() ==> old_f.contains_key(#[trigger] removed@[j].0) && idle(
                    old_f[removed@[j].0].last_seen,
                    now,
                    max_idle,
                ) && old_f[removed@[j].0].stream_id == removed@[j].1,
                forall|j: int|
                    #![trigger entries@[j]]
                    0 <= j < i && idle(entries@[j].1.last_seen, now, max_idle) ==> exists|m: int|
                        #![trigger removed@[m]]
                        0 <= m < removed@.len() && removed@[m].0 == entries@[j].0,
                forall|a: int, b: int|
                    0 <= a < b < removed@.len() ==> #[trigger] removed@[a].0 != #[trigger] removed@[b].0,
                forall|m: int|
                    #![trigger removed@[m]]
                    0 <= m < removed@.len() ==> exists|j: int|
                        #![trigger entries@[j]]
                        0 <= j < i && entries@[j].0 == removed@[m].0,
            decreases entries@.len() - i,
        {
            let (c, e) = entries[i];
            if now.saturating_sub(e.last_seen) >= max_idle {
                proof {
                    assert forall|m: int| 0 <= m < removed@.len() implies #[trigger] removed@[m].0 != c by {
                        let j = choose|j: int| #![trigger entries@[j]] 0 <= j < i && entries@[j].0 == removed@[m].0;
                        assert(entries@[j].0 != entries@[i as int].0);
                    }
                }
                let ghost before = removed@;
                removed.push((c, e.stream_id));
                proof {
                    assert(removed@[removed@.len() - 1].0 == entries@[i as int].0);
                    assert forall|jj: int|
                        #![trigger entries@[jj]]
                        0 <= jj < i + 1 && idle(entries@[jj].1.last_seen, now, max_idle) implies exists|m: int|
                            #![trigger removed@[m]]
                            0 <= m < removed@.len() && removed@[m].0 == entries@[jj].0 by {
                        if jj < i {
                            let m = choose|m: int| #![trigger before[m]] 0 <= m < before.len() && before[m].0 == entries@[jj].0;
                            assert(removed@[m] == before[m]);
                        } else {
                            let m = removed@.len() - 1;
                            assert(removed@[m].0 == entries@[jj].0);
                        }
                    }
                    assert forall|m: int|
                        #![trigger removed@[m]]
                        0 <= m < removed@.len() implies exists|jj: int|
                            #![trigger entries@[jj]]
                            0 <= jj < i + 1 && entries@[jj].0 == removed@[m].0 by {
                        if m < before.len() {
                            assert(removed@[m] == before[m]);
                            let jj = choose|jj: int| #![trigger entries@[jj]] 0 <= jj < i && entries@[jj].0 == before[m].0;
                            assert(entries@[jj].0 == removed@[m].0);
                        } else {
                            assert(entries@[i as int].0 == removed@[m].0);
                        }
                    }
                }
            } else {
                assert(!idle(entries@[i as int].1.last_seen, now, max_idle));
                assert forall|jj: int|
                    #![trigger entries@[jj]]
                    0 <= jj < i + 1 && idle(entries@[jj].1.last_seen, now, max_idle) implies exists|m: int|
                        #![trigger removed@[m]]
                        0 <= m < removed@.len() && removed@[m].0 == entries@[jj].0 by {
                    assert(jj < i);
                }
                assert forall|m: int|
                    #![trigger removed@[m]]
                    0 <= m < removed@.len() implies exists|jj: int|
                        #![trigger entries@[jj]]
                        0 <= jj < i + 1 && entries@[jj].0 == removed@[m].0 by {
                    let jj = choose|jj: int| #![trigger entries@[jj]] 0 <= jj < i && entries@[jj].0 == removed@[m].0;
                }
            }
            i = i + 1;
        }
        proof {
            assert forall|c: u128| #[trigger] old_f.contains_key(c) && idle(old_f[c].last_seen, now, max_idle)
                implies exists|m: int| 0 <= m < removed@.len() && #[trigger] removed@[m].0 == c by {
                let j = choose|j: int| 0 <= j < entries@.len() && #[trigger] entries@[j].0 == c;
                assert(idle(entries@[j].1.last_seen, now, max_idle));
                assert(entries@[j] == entries@[j]);
            }
        }
        let count = removed.len();
        let mut j: usize = 0;
        while j < removed.len()
            invariant
                j <= removed@.len(),
                forall|m: int| 0 <= m < removed@.len() ==> old_f.contains_key(#[trigger] removed@[m].0) && idle(
                    old_f[removed@[m].0].last_seen,
                    now,
                    max_idle,
                ) && old_f[removed@[m].0].stream_id == removed@[m].1,
                forall|a: int, b: int|
                    0 <= a < b < removed@.len() ==> #[trigger] removed@[a].0 != #[trigger] removed@[b].0,
                forall|c: u128| #[trigger]
                    self.flow_to_stream@.contains_key(c) <==> old_f.contains_key(c) && !(exists|m: int|
                        0 <= m < j && #[trigger] removed@[m].0 == c),
                forall|c: u128| #[trigger] self.flow_to_stream@.contains_key(c) ==> self.flow_to_stream@[c] == old_f[c],
                forall|id: u32| #[trigger]
                    self.stream_to_flow@.contains_key(id) <==> old_s.contains_key(id) && !(exists|m: int|
                        0 <= m < j && #[trigger] removed@[m].1 == id),
                forall|id: u32| #[trigger] self.stream_to_flow@.contains_key(id) ==> self.stream_to_flow@[id] == old_s[id],
                self.flow_to_stream@.len() + j == old_f.len(),
                self.flow_to_stream@.dom().finite(),
            decreases removed@.len() - j,
        {
            let (c, id) = removed[j];
            proof {
                assert(self.flow_to_stream@.contains_key(c)) by {
                    assert forall|m: int| 0 <= m < j implies #[trigger] removed@[m].0 != c by {
                        assert(removed@[m].0 != removed@[j as int].0);
                    }
                }
            }
            self.flow_to_stream.remove(&c);
            self.stream_to_flow.remove(&id);
            j = j + 1;
        }
        proof {
            assert forall|id: u32| #[trigger] self.stream_to_flow@.contains_key(id) implies self.flow_to_stream@.contains_key(
                flow_code(self.stream_to_flow@[id]),
            ) && self.flow_to_stream@[flow_code(self.stream_to_flow@[id])].stream_id == id by {
                let c = flow_code(old_s[id]);
                assert(old_f.contains_key(c));
                if exists|m: int| 0 <= m < removed@.len() && #[trigger] removed@[m].0 == c {
                    let m = choose|m: int| 0 <= m < removed@.len() && #[trigger] removed@[m].0 == c;
                    assert(removed@[m].1 == id);
                }
            }
            assert forall|k: FlowKey| #[trigger] self.flows().contains_key(k) <==> old(self).flows().contains_key(k)
                && !idle(old(self).flows()[k].1, now, max_idle) by {
                let c = flow_code(k);
                if old_f.contains_key(c) && idle(old_f[c].last_seen, now, max_idle) {
                    let m = choose|m: int| 0 <= m < removed@.len() && #[trigger] removed@[m].0 == c;
                }
            }
            assert forall|id: u32| #[trigger] self.stream_to_flow@.contains_key(id) <==> old_s.contains_key(id)
                && !stream_of_idle_flow(old(self).flows(), id, now, max_idle) by {
                if exists|m: int| 0 <= m < removed@.len() && #[trigger] removed@[m].1 == id {
                    let m = choose|m: int| 0 <= m < removed@.len() && #[trigger] removed@[m].1 == id;
                    let c = removed@[m].0;
                    let k = old_f[c].key;
                    assert(flow_code(k) == c);
                    assert(old(self).flows().contains_key(k) && old(self).flows()[k].0 == id && idle(
                        old(self).flows()[k].1,
                        now,
                        max_idle,
                    ));
                }
                if stream_of_idle_flow(old(self).flows(), id, now, max_idle) {
                    let k = choose|k: FlowKey| #[trigger] old(self).flows().contains_key(k) && old(self).flows()[k].0
                        == id && idle(old(self).flows()[k].1, now, max_idle);
                    let c = flow_code(k);
                    let m = choose|m: int| 0 <= m < removed@.len() && #[trigger] removed@[m].0 == c;
                    assert(removed@[m].1 == id);
                }
            }
            old(self).lemma_flow_count_is_flows();
            self.lemma_flow_count_is_flows();
        }
        count
    }
}

/// Stream `id` is the stream of a flow idle at `now` after `max_idle`.
pub open spec fn stream_of_idle_flow(flows: Map<FlowKey, (u32, u64)>, id: u32, now: u64, max_idle: u64) -> bool {
    exists|k: FlowKey| #[trigger] flows.contains_key(k) && flows[k].0 == id && idle(flows[k].1, now, max_idle)
}

/// An entry last seen at `t` is idle at `now` after `max_idle`.
pub open spec fn idle(t: u64, now: u64, max_idle: u64) -> bool {
    (if now >= t {
        now - t
    } else {
        0
    }) >= max_idle
}

fn flow_entries(m: &HashMap<u128, FlowEntry>) -> (r: Vec<(u128, FlowEntry)>)
    ensures
        r@.len() == m@.dom().len(),
        forall|i: int| 0 <= i < r@.len() ==> m@.contains_key(#[trigger] r@[i].0) && m@[r@[i].0] == r@[i].1,
        forall|k: u128| m@.contains_key(k) ==> exists|i: int| 0 <= i < r@.len() && #[trigger] r@[i].0 == k,
        forall|a: int, b: int| 0 <= a < b < r@.len() ==> #[trigger] r@[a].0 != #[trigger] r@[b].0,
{
    let mut out: Vec<(u128, FlowEntry)> = Vec::new();
    for (k, v) in it: m.iter()
        invariant
            out@.len() == it.index(),
            it.seq() == vstd::std_specs::hash::spec_hash_map_iter(m).remaining(),
            vstd::std_specs::hash::spec_hash_map_iter(m).remaining().no_duplicates(),
            forall|i: int| 0 <= i < it.index() ==> out@[i] == (*it.seq()[i].0, *it.seq()[i].1),
    {
        out.push((*k, *v));
    }
    proof {
        let v = vstd::std_specs::hash::spec_hash_map_iter(m).remaining();
        assert forall|k: u128| m@.contains_key(k) implies exists|i: int|
            0 <= i < out@.len() && #[trigger] out@[i].0 == k by {
            assert(v.contains((&k, &m@[k])));
            let i = choose|i: int| 0 <= i < v.len() && v[i] == (&k, &m@[k]);
            assert(out@[i].0 == k);
        }
        assert forall|a: int, b: int| 0 <= a < b < out@.len() implies #[trigger] out@[a].0 != #[trigger] out@[b].0 by {
            if out@[a].0 == out@[b].0 {
                assert(m@[*v[a].0] == *v[a].1);
                assert(m@[*v[b].0] == *v[b].1);
                assert(v[a] == v[b]);
            }
        }
    }
    out
}

} // verus!
