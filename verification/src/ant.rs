//! Measurement ants: small control-plane packets that walk a path and collect per-hop
//! observations, with limits on hops, observations and size, and a bounded
//! deduplication cache by ant id.
use crate::addr::{IpAddress, NodeAddr};
use crate::codec::{from_be_u128, get_be_u128};
use std::collections::{HashMap, VecDeque};
use vstd::prelude::*;

pub use crate::clock::now_ms;

verus! {

broadcast use vstd::std_specs::hash::group_hash_axioms;

pub const MAX_TTL: u8 = 32;

pub const MAX_OBSERVATIONS: usize = 16;

pub const MAX_PATH: usize = 32;

pub const MAX_ANT_BYTES: usize = 2048;

#[derive(Debug, Clone, Copy, PartialEq, Eq, Structural)]
pub enum AntType {
    Scout,
    Probe,
    Echo,
}

/// What one node saw when an ant passed.
#[derive(Debug, Clone, Copy, PartialEq, Eq, Structural)]
pub struct Observation {
    pub node: NodeAddr,
    pub rtt_ms: Option<u32>,
    pub success: Option<bool>,
    pub timestamp_ms: u64,
}

#[derive(Debug, Clone)]
pub struct Ant {
    pub id: [u8; 16],
    pub ant_type: AntType,
    pub ttl: u8,
    pub path: Vec<NodeAddr>,
    pub observations: Vec<Observation>,
    pub created_at_ms: u64,
}

#[derive(Debug, Clone, Copy, PartialEq, Eq, Structural)]
pub enum AntDropReason {
    Invalid,
    TtlExpired,
    ObservationLimit,
    Duplicate,
    Oversize,
}

/// Encoded size of a node address: address tag and octets, port, protocol tag.
pub open spec fn node_wire_len(n: NodeAddr) -> int {
    match n.ip {
        IpAddress::V4(_) => 14,
        IpAddress::V6(_) => 26,
    }
}

/// Encoded size of an observation.
pub open spec fn observation_wire_len(o: Observation) -> int {
    node_wire_len(o.node) + (if o.rtt_ms is Some {
        5int
    } else {
        1int
    }) + (if o.success is Some {
        2int
    } else {
        1int
    }) + 8
}

pub open spec fn path_wire_len(p: Seq<NodeAddr>) -> int
    decreases p.len(),
{
    if p.len() == 0 {
        0
    } else {
        path_wire_len(p.drop_last()) + node_wire_len(p.last())
    }
}

pub open spec fn observations_wire_len(p: Seq<Observation>) -> int
    decreases p.len(),
{
    if p.len() == 0 {
        0
    } else {
        observations_wire_len(p.drop_last()) + observation_wire_len(p.last())
    }
}

/// Encoded size of an ant: id, type tag, ttl, the path and the observations (each with
/// an 8-byte count), creation time.
pub open spec fn ant_wire_len(a: Ant) -> int {
    16 + 4 + 1 + 8 + path_wire_len(a.path@) + 8 + observations_wire_len(a.observations@) + 8
}

proof fn lemma_path_len_bound(p: Seq<NodeAddr>)
    ensures
        0 <= path_wire_len(p) <= 26 * p.len(),
    decreases p.len(),
{
    if p.len() > 0 {
        lemma_path_len_bound(p.drop_last());
    }
}

proof fn lemma_observations_len_bound(p: Seq<Observation>)
    ensures
        0 <= observations_wire_len(p) <= 41 * p.len(),
    decreases p.len(),
{
    if p.len() > 0 {
        lemma_observations_len_bound(p.drop_last());
    }
}

impl Ant {
    /// Within the limits: a live ttl of at most `MAX_TTL`, at most `MAX_PATH` hops and
    /// `MAX_OBSERVATIONS` observations.
    pub open spec fn valid(&self) -> bool {
        0 < self.ttl <= MAX_TTL && self.path@.len() <= MAX_PATH && self.observations@.len() <= MAX_OBSERVATIONS
    }

    pub fn validate(&self) -> (r: bool)
        ensures
            r == self.valid(),
    {
        if self.ttl == 0 || self.ttl > MAX_TTL {
            return false;
        }
        if self.path.len() > MAX_PATH {
            return false;
        }
        if self.observations.len() > MAX_OBSERVATIONS {
            return false;
        }
        true
    }

    /// The encoded ant fits in `MAX_ANT_BYTES`.
    pub fn size_ok(&self) -> (r: bool)
        ensures
            r == (ant_wire_len(*self) <= MAX_ANT_BYTES),
    {
        let mut path_len: u128 = 0;
        let mut i: usize = 0;
        while i < self.path.len()
            invariant
                i <= self.path@.len(),
                path_len == path_wire_len(self.path@.take(i as int)),
                path_len <= 26 * i,
            decreases self.path@.len() - i,
        {
            proof {
                assert(self.path@.take(i + 1).drop_last() =~= self.path@.take(i as int));
            }
            let add: u128 = match self.path[i].ip {
                IpAddress::V4(_) => 14,
                IpAddress::V6(_) => 26,
            };
            path_len = path_len + add;
            i = i + 1;
        }
        let mut obs_len: u128 = 0;
        let mut j: usize = 0;
        while j < self.observations.len()
            invariant
                j <= self.observations@.len(),
                obs_len == observations_wire_len(self.observations@.take(j as int)),
                obs_len <= 41 * j,
            decreases self.observations@.len() - j,
        {
            proof {
                assert(self.observations@.take(j + 1).drop_last() =~= self.observations@.take(j as int));
            }
            let o = self.observations[j];
            let node: u128 = match o.node.ip {
                IpAddress::V4(_) => 14,
                IpAddress::V6(_) => 26,
            };
            let rtt: u128 = if o.rtt_ms.is_some() { 5 } else { 1 };
            let success: u128 = if o.success.is_some() { 2 } else { 1 };
            obs_len = obs_len + node + rtt + success + 8;
            j = j + 1;
        }
        assert(self.path@.take(self.path@.len() as int) =~= self.path@);
        assert(self.observations@.take(self.observations@.len() as int) =~= self.observations@);
        45 + path_len + obs_len <= MAX_ANT_BYTES as u128
    }

    /// Record a hop: the ttl drops by one, the node joins the path while it has room, and
    /// the observation is appended; refused once the ttl is spent or the observations are
    /// full.
    pub fn step(&mut self, node: NodeAddr, obs: Observation) -> (r: Result<(), AntDropReason>)
        ensures
            old(self).ttl == 0 ==> r == Err::<(), AntDropReason>(AntDropReason::TtlExpired) && final(self)@ == old(self)@,
            old(self).ttl != 0 && old(self).observations@.len() >= MAX_OBSERVATIONS ==> r == Err::<(), AntDropReason>(
                AntDropReason::ObservationLimit,
            ) && final(self)@ == old(self)@,
            old(self).ttl != 0 && old(self).observations@.len() < MAX_OBSERVATIONS ==> {
                &&& r is Ok
                &&& final(self).ttl == old(self).ttl - 1
                &&& final(self).path@ == (if old(self).path@.len() < MAX_PATH {
                    old(self).path@.push(node)
                } else {
                    old(self).path@
                })
                &&& final(self).observations@ == old(self).observations@.push(obs)
                &&& final(self).id == old(self).id
                &&& final(self).ant_type == old(self).ant_type
                &&& final(self).created_at_ms == old(self).created_at_ms
            },
    {
        if self.ttl == 0 {
            return Err(AntDropReason::TtlExpired);
        }
        if self.observations.len() >= MAX_OBSERVATIONS {
            return Err(AntDropReason::ObservationLimit);
        }
        self.ttl = self.ttl - 1;
        if self.path.len() < MAX_PATH {
            self.path.push(node);
        }
        self.observations.push(obs);
        Ok(())
    }
}

impl View for Ant {
    type V = ([u8; 16], AntType, u8, Seq<NodeAddr>, Seq<Observation>, u64);

    open spec fn view(&self) -> ([u8; 16], AntType, u8, Seq<NodeAddr>, Seq<Observation>, u64) {
        (self.id, self.ant_type, self.ttl, self.path@, self.observations@, self.created_at_ms)
    }
}

/// The key an ant id is filed under: its 16 bytes read big-endian.
pub open spec fn id_key(id: [u8; 16]) -> u128 {
    from_be_u128(id@)
}

/// The cache after dropping the ids at the front of `order` that are no longer in `seen`
/// or were marked more than `ttl_ms` before `now` (those are forgotten too).
pub open spec fn pruned(order: Seq<u128>, seen: Map<u128, u64>, now: u64, ttl_ms: u64) -> (Seq<u128>, Map<u128, u64>)
    decreases order.len(),
{
    if order.len() == 0 {
        (order, seen)
    } else if !seen.contains_key(order[0]) {
        pruned(order.drop_first(), seen, now, ttl_ms)
    } else if (if now >= seen[order[0]] {
        now - seen[order[0]]
    } else {
        0
    }) > ttl_ms {
        pruned(order.drop_first(), seen.remove(order[0]), now, ttl_ms)
    } else {
        (order, seen)
    }
}

/// `seen` without the ids of `order[..n]`.
pub open spec fn forget(seen: Map<u128, u64>, order: Seq<u128>, n: int) -> Map<u128, u64> {
    seen.remove_keys(order.take(n).to_set())
}

/// The cache after `check_and_mark_at(id, now)` returned `r`: expired ids at the front
/// are dropped; `r` tells whether the id was then unknown, and a new id is appended with
/// the oldest ids beyond the capacity dropped.
pub open spec fn marked_at(old: AntDedup, new: AntDedup, id: [u8; 16], now: u64, r: bool) -> bool {
    let (o1, s1) = pruned(old.order(), old.seen(), now, old.ttl());
    let o2 = o1.push(id_key(id));
    let s2 = s1.insert(id_key(id), now);
    let extra = if o2.len() > old.capacity() {
        o2.len() - old.capacity()
    } else {
        0
    };
    &&& new.capacity() == old.capacity()
    &&& new.ttl() == old.ttl()
    &&& r == !s1.contains_key(id_key(id))
    &&& !r ==> new.order() == o1 && new.seen() == s1
    &&& r ==> new.order() == o2.skip(extra) && new.seen() == forget(s2, o2, extra)
}

/// Small bounded deduplication cache of ant ids, oldest first.
#[derive(Debug)]
pub struct AntDedup {
    cap: usize,
    ttl_ms: u64,
    order: VecDeque<u128>,
    seen: HashMap<u128, u64>,
}

impl AntDedup {
    pub closed spec fn capacity(&self) -> usize {
        self.cap
    }

    pub closed spec fn ttl(&self) -> u64 {
        self.ttl_ms
    }

    /// Ids oldest first.
    pub closed spec fn order(&self) -> Seq<u128> {
        self.order@
    }

    /// When each remembered id was marked.
    pub closed spec fn seen(&self) -> Map<u128, u64> {
        self.seen@
    }

    /// A cache of at least 16 ids whose entries are forgotten `ttl_ms` after marking.
    pub fn new(cap: usize, ttl_ms: u64) -> (r: Self)
        ensures
            r.capacity() == (if cap >= 16 { cap } else { 16 }),
            r.ttl() == ttl_ms,
            r.order() == Seq::<u128>::empty(),
            r.seen() == Map::<u128, u64>::empty(),
            dedup_consistent(r.order(), r.seen()),
    {
        AntDedup { cap: if cap >= 16 { cap } else { 16 }, ttl_ms, order: VecDeque::new(), seen: HashMap::new() }
    }

    /// Drop the ids at the front that are forgotten or expired at `now`.
    fn prune(&mut self, now: u64)
        ensures
            final(self).capacity() == old(self).capacity(),
            final(self).ttl() == old(self).ttl(),
            (final(self).order(), final(self).seen()) == pruned(old(self).order(), old(self).seen(), now, old(self).ttl()),
    {
        while self.order.len() > 0
            invariant_except_break
                self.ttl_ms == old(self).ttl_ms,
                self.cap == old(self).cap,
                pruned(old(self).order@, old(self).seen@, now, self.ttl_ms) == pruned(self.order@, self.seen@, now, self.ttl_ms),
            ensures
                pruned(old(self).order@, old(self).seen@, now, self.ttl_ms) == (self.order@, self.seen@),
                self.ttl_ms == old(self).ttl_ms,
                self.cap == old(self).cap,
            decreases self.order@.len(),
        {
            let front = self.order[0];
            let t = match self.seen.get(&front) {
                Some(t) => *t,
                None => {
                    let ghost before = self.order@;
                    self.order.pop_front();
                    assert(self.order@ =~= before.drop_first());
                    continue;
                },
            };
            if now.saturating_sub(t) > self.ttl_ms {
                let ghost before = self.order@;
                self.order.pop_front();
                self.seen.remove(&front);
                assert(self.order@ =~= before.drop_first());
            } else {
                assert(pruned(self.order@, self.seen@, now, self.ttl_ms) == (self.order@, self.seen@));
                break;
            }
        }
    }

    /// Whether `id` is new at `now`, marking it if so: expired ids at the front are
    /// dropped first; a new id is appended and the oldest ids beyond the capacity dropped.
    /// A marked id is refused until it expires or is pushed out.
    pub fn check_and_mark_at(&mut self, id: [u8; 16], now: u64) -> (r: bool)
        requires
            old(self).order().len() < usize::MAX,
        ensures
            marked_at(*old(self), *final(self), id, now, r),
    {
        let key = get_be_u128(id.as_slice(), 0);
        assert(id@.subrange(0, 16) =~= id@);
        self.prune(now);
        if self.seen.contains_key(&key) {
            return false;
        }
        self.seen.insert(key, now);
        self.order.push_back(key);
        let ghost o2 = self.order@;
        let ghost s2 = self.seen@;
        let ghost mut k: int = 0;
        proof {
            assert(self.order@ =~= o2.skip(0));
            assert(forget(s2, o2, 0) =~= s2) by {
                assert(o2.take(0).to_set() =~= Set::<u128>::empty());
            }
        }
        while self.order.len() > self.cap
            invariant
                0 <= k <= o2.len(),
                self.order@ == o2.skip(k),
                self.seen@ == forget(s2, o2, k),
                self.cap == old(self).cap,
                self.ttl_ms == old(self).ttl_ms,
                k > 0 ==> o2.len() - k >= self.cap,
                k > 0 ==> o2.len() > self.cap,
            decreases self.order@.len(),
        {
            let ghost before = self.order@;
            match self.order.pop_front() {
                Some(oldest) => {
                    self.seen.remove(&oldest);
                    proof {
                        lemma_forget_step(s2, o2, k);
                        k = k + 1;
                        assert(self.order@ =~= o2.skip(k));
                    }
                },
                None => {},
            }
        }
        true
    }

    /// Whether `id` is new now (by the system clock), marking it if so.
    pub fn check_and_mark(&mut self, id: [u8; 16]) -> (r: bool)
        requires
            old(self).order().len() < usize::MAX,
        ensures
            exists|now: u64| #[trigger] marked_at(*old(self), *final(self), id, now, r),
    {
        let now = now_ms();
        self.check_and_mark_at(id, now)
    }
}

/// The order holds each remembered id exactly once, and only remembered ids.
pub open spec fn dedup_consistent(order: Seq<u128>, seen: Map<u128, u64>) -> bool {
    &&& order.no_duplicates()
    &&& forall|i: int| 0 <= i < order.len() ==> seen.contains_key(#[trigger] order[i])
    &&& forall|k: u128| #[trigger] seen.contains_key(k) ==> order.contains(k)
}

/// An id marked at `t` has not expired at `now`.
pub open spec fn unexpired(t: u64, now: u64, ttl_ms: u64) -> bool {
    (if now >= t {
        now - t
    } else {
        0
    }) <= ttl_ms
}

/// Pruning keeps the cache consistent and keeps every unexpired id with its time.
pub proof fn lemma_pruned_consistent(order: Seq<u128>, seen: Map<u128, u64>, now: u64, ttl_ms: u64)
    requires
        dedup_consistent(order, seen),
    ensures
        dedup_consistent(pruned(order, seen, now, ttl_ms).0, pruned(order, seen, now, ttl_ms).1),
        forall|k: u128|
            seen.contains_key(k) && unexpired(seen[k], now, ttl_ms) ==> #[trigger] pruned(
                order,
                seen,
                now,
                ttl_ms,
            ).1.contains_key(k) && pruned(order, seen, now, ttl_ms).1[k] == seen[k],
    decreases order.len(),
{
    if order.len() > 0 {
        assert(seen.contains_key(order[0]));
        if !unexpired(seen[order[0]], now, ttl_ms) {
            let o = order.drop_first();
            let s = seen.remove(order[0]);
            assert forall|i: int| 0 <= i < o.len() implies s.contains_key(#[trigger] o[i]) by {
                assert(o[i] == order[i + 1]);
                assert(order[i + 1] != order[0]);
            }
            assert forall|k: u128| #[trigger] s.contains_key(k) implies o.contains(k) by {
                assert(order.contains(k));
                let i = choose|i: int| 0 <= i < order.len() && order[i] == k;
                assert(i != 0);
                assert(o[i - 1] == k);
            }
            assert(o.no_duplicates()) by {
                assert forall|i: int, j: int| 0 <= i < o.len() && 0 <= j < o.len() && i != j implies o[i] != o[j] by {
                    assert(o[i] == order[i + 1] && o[j] == order[j + 1]);
                }
            }
            lemma_pruned_consistent(o, s, now, ttl_ms);
        }
    }
}

/// A marked cache stays consistent.
pub proof fn lemma_marked_consistent(old: AntDedup, new: AntDedup, id: [u8; 16], now: u64, r: bool)
    requires
        dedup_consistent(old.order(), old.seen()),
        marked_at(old, new, id, now, r),
    ensures
        dedup_consistent(new.order(), new.seen()),
{
    let (o1, s1) = pruned(old.order(), old.seen(), now, old.ttl());
    lemma_pruned_consistent(old.order(), old.seen(), now, old.ttl());
    if r {
        let k = id_key(id);
        let o2 = o1.push(k);
        let s2 = s1.insert(k, now);
        let extra: int = if o2.len() > old.capacity() {
            o2.len() - old.capacity()
        } else {
            0
        };
        assert(!o1.contains(k));
        assert(o2.no_duplicates()) by {
            assert forall|i: int, j: int| 0 <= i < o2.len() && 0 <= j < o2.len() && i != j implies o2[i] != o2[j] by {
                if i < o1.len() && j < o1.len() {
                } else if i < o1.len() {
                    assert(o1.contains(o2[i]));
                } else {
                    assert(o1.contains(o2[j]));
                }
            }
        }
        let gone = o2.take(extra).to_set();
        let o3 = o2.skip(extra);
        let s3 = s2.remove_keys(gone);
        assert(new.order() == o3 && new.seen() == s3);
        assert forall|i: int| 0 <= i < o3.len() implies s3.contains_key(#[trigger] o3[i]) by {
            assert(o3[i] == o2[i + extra]);
            if i + extra < o1.len() {
                assert(s1.contains_key(o1[i + extra]));
            }
            if gone.contains(o3[i]) {
                let j = choose|j: int| 0 <= j < o2.take(extra).len() && o2.take(extra)[j] == o3[i];
                assert(o2[j] == o2[i + extra]);
            }
        }
        assert forall|x: u128| #[trigger] s3.contains_key(x) implies o3.contains(x) by {
            assert(s2.contains_key(x));
            let j: int = if x == k {
                o1.len() as int
            } else {
                assert(o1.contains(x));
                choose|j: int| 0 <= j < o1.len() && o1[j] == x
            };
            assert(o2[j] == x);
            if j < extra {
                assert(o2.take(extra)[j] == x);
                assert(gone.contains(x));
            }
            assert(o3[j - extra] == x);
        }
        assert(o3.no_duplicates()) by {
            assert forall|i: int, j: int| 0 <= i < o3.len() && 0 <= j < o3.len() && i != j implies o3[i] != o3[j] by {
                assert(o3[i] == o2[i + extra] && o3[j] == o2[j + extra]);
            }
        }
    }
}

/// An id that was just accepted is refused when offered again before it expires.
pub proof fn lemma_accepted_id_refused_within_ttl(
    d0: AntDedup,
    d1: AntDedup,
    d2: AntDedup,
    id: [u8; 16],
    now1: u64,
    now2: u64,
    r2: bool,
)
    requires
        dedup_consistent(d0.order(), d0.seen()),
        d0.capacity() >= 1,
        marked_at(d0, d1, id, now1, true),
        marked_at(d1, d2, id, now2, r2),
        unexpired(now1, now2, d0.ttl()),
    ensures
        !r2,
{
    let k = id_key(id);
    let (o1, s1) = pruned(d0.order(), d0.seen(), now1, d0.ttl());
    lemma_pruned_consistent(d0.order(), d0.seen(), now1, d0.ttl());
    lemma_marked_consistent(d0, d1, id, now1, true);
    let o2 = o1.push(k);
    let s2 = s1.insert(k, now1);
    let extra: int = if o2.len() > d0.capacity() {
        o2.len() - d0.capacity()
    } else {
        0
    };
    assert(!o1.contains(k));
    assert(!o2.take(extra).to_set().contains(k)) by {
        if o2.take(extra).to_set().contains(k) {
            let j = choose|j: int| 0 <= j < o2.take(extra).len() && o2.take(extra)[j] == k;
            assert(o2[j] == k);
            assert(j < o1.len());
            assert(o1[j] == k);
        }
    }
    assert(d1.seen().contains_key(k) && d1.seen()[k] == now1);
    lemma_pruned_consistent(d1.order(), d1.seen(), now2, d1.ttl());
    assert(pruned(d1.order(), d1.seen(), now2, d1.ttl()).1.contains_key(k));
}

/// The cache holds each id once with its marking time, the times never decrease from
/// oldest to newest, and none lies after `now`: what a clock that never goes back leaves.
pub open spec fn dedup_in_time(order: Seq<u128>, seen: Map<u128, u64>, now: u64) -> bool {
    &&& dedup_consistent(order, seen)
    &&& forall|i: int, j: int| 0 <= i < j < order.len() ==> seen[#[trigger] order[i]] <= seen[#[trigger] order[j]]
    &&& forall|i: int| 0 <= i < order.len() ==> seen[#[trigger] order[i]] <= now
}

proof fn lemma_pruned_in_time(order: Seq<u128>, seen: Map<u128, u64>, now: u64, ttl_ms: u64)
    requires
        dedup_in_time(order, seen, now),
    ensures
        ({
            let (o1, s1) = pruned(order, seen, now, ttl_ms);
            &&& dedup_in_time(o1, s1, now)
            &&& o1.len() <= order.len()
            &&& forall|x: u128| #[trigger] s1.contains_key(x) <==> seen.contains_key(x) && unexpired(seen[x], now, ttl_ms)
            &&& forall|x: u128| #[trigger] s1.contains_key(x) ==> s1[x] == seen[x]
        }),
    decreases order.len(),
{
    lemma_pruned_consistent(order, seen, now, ttl_ms);
    if order.len() > 0 {
        assert(seen.contains_key(order[0]));
        if !unexpired(seen[order[0]], now, ttl_ms) {
            let o = order.drop_first();
            let sm = seen.remove(order[0]);
            assert forall|i: int| 0 <= i < o.len() implies sm.contains_key(#[trigger] o[i]) by {
                assert(o[i] == order[i + 1]);
                assert(order[i + 1] != order[0]);
            }
            assert forall|k: u128| #[trigger] sm.contains_key(k) implies o.contains(k) by {
                assert(order.contains(k));
                let i = choose|i: int| 0 <= i < order.len() && order[i] == k;
                assert(i != 0);
                assert(o[i - 1] == k);
            }
            assert(o.no_duplicates()) by {
                assert forall|i: int, j: int| 0 <= i < o.len() && 0 <= j < o.len() && i != j implies o[i] != o[j] by {
                    assert(o[i] == order[i + 1] && o[j] == order[j + 1]);
                }
            }
            assert forall|i: int, j: int| 0 <= i < j < o.len() implies sm[#[trigger] o[i]] <= sm[#[trigger] o[j]] by {
                assert(o[i] == order[i + 1] && o[j] == order[j + 1]);
                assert(order[i + 1] != order[0] && order[j + 1] != order[0]);
                assert(seen[order[i + 1]] <= seen[order[j + 1]]);
            }
            assert forall|i: int| 0 <= i < o.len() implies sm[#[trigger] o[i]] <= now by {
                assert(o[i] == order[i + 1]);
                assert(order[i + 1] != order[0]);
                assert(seen[order[i + 1]] <= now);
            }
            lemma_pruned_in_time(o, sm, now, ttl_ms);
            assert forall|x: u128| #[trigger] seen.contains_key(x) && unexpired(seen[x], now, ttl_ms) implies x != order[0] by {}
        } else {
            assert forall|x: u128| #[trigger] seen.contains_key(x) implies unexpired(seen[x], now, ttl_ms) by {
                assert(order.contains(x));
                let i = choose|i: int| 0 <= i < order.len() && order[i] == x;
                if i > 0 {
                    assert(seen[order[0]] <= seen[order[i]]);
                }
                assert(seen[order[i]] <= now);
            }
        }
    }
}

/// Deduplication over time, with a clock that never goes back: an id is accepted exactly
/// when no unexpired marking of it is remembered; an accepted id is remembered with the
/// time of this call; every remembered id is unexpired, remembered once, and either kept
/// from before with its time or the one just accepted; and at most the capacity is
/// remembered, the oldest going first.
pub proof fn lemma_dedup_in_time(old: AntDedup, new: AntDedup, id: [u8; 16], now: u64, r: bool)
    requires
        dedup_in_time(old.order(), old.seen(), now),
        old.order().len() <= old.capacity(),
        old.capacity() >= 1,
        marked_at(old, new, id, now, r),
    ensures
        r == !(old.seen().contains_key(id_key(id)) && unexpired(old.seen()[id_key(id)], now, old.ttl())),
        r ==> new.seen().contains_key(id_key(id)) && new.seen()[id_key(id)] == now,
        forall|x: u128| #[trigger] new.seen().contains_key(x) ==> unexpired(new.seen()[x], now, new.ttl()),
        forall|x: u128|
            #[trigger] new.seen().contains_key(x) ==> (x == id_key(id) && r && new.seen()[x] == now) || (
            old.seen().contains_key(x) && new.seen()[x] == old.seen()[x]),
        new.order().len() <= new.capacity(),
        dedup_in_time(new.order(), new.seen(), now),
{
    let k = id_key(id);
    let ttl = old.ttl();
    let (o1, s1) = pruned(old.order(), old.seen(), now, ttl);
    lemma_pruned_in_time(old.order(), old.seen(), now, ttl);
    lemma_marked_consistent(old, new, id, now, r);
    if r {
        let o2 = o1.push(k);
        let s2 = s1.insert(k, now);
        let extra: int = if o2.len() > old.capacity() {
            o2.len() - old.capacity()
        } else {
            0
        };
        assert(extra <= 1);
        assert(!o1.contains(k)) by {
            if o1.contains(k) {
                let i = choose|i: int| 0 <= i < o1.len() && o1[i] == k;
                assert(s1.contains_key(o1[i]));
            }
        }
        let gone = o2.take(extra).to_set();
        assert(!gone.contains(k)) by {
            if gone.contains(k) {
                let j = choose|j: int| 0 <= j < o2.take(extra).len() && o2.take(extra)[j] == k;
                assert(j < o1.len());
                assert(o1[j] == k);
            }
        }
        let o3 = o2.skip(extra);
        let s3 = s2.remove_keys(gone);
        assert(new.order() == o3 && new.seen() == s3);
        assert forall|i: int, j: int| 0 <= i < j < o3.len() implies s3[#[trigger] o3[i]] <= s3[#[trigger] o3[j]] by {
            assert(o3[i] == o2[i + extra] && o3[j] == o2[j + extra]);
            assert(s3.contains_key(o3[i]) && s3.contains_key(o3[j]));
            if j + extra < o1.len() {
                assert(o2[i + extra] == o1[i + extra] && o2[j + extra] == o1[j + extra]);
                assert(o1[i + extra] != k && o1[j + extra] != k);
            } else {
                assert(o1[i + extra] != k);
                assert(s1[o1[i + extra]] <= now);
            }
        }
        assert forall|i: int| 0 <= i < o3.len() implies s3[#[trigger] o3[i]] <= now by {
            assert(o3[i] == o2[i + extra]);
            assert(s3.contains_key(o3[i]));
            if i + extra < o1.len() {
                assert(o1[i + extra] != k);
            }
        }
    }
}

/// `states` are the caches along a run of `check_and_mark` calls on `ids` at the clock
/// readings `times` (never going back), starting from an empty cache, and `rs` the answers.
pub open spec fn dedup_run(states: Seq<AntDedup>, ids: Seq<[u8; 16]>, times: Seq<u64>, rs: Seq<bool>) -> bool {
    &&& states.len() == ids.len() + 1
    &&& times.len() == ids.len()
    &&& rs.len() == ids.len()
    &&& states[0].order() == Seq::<u128>::empty()
    &&& states[0].seen() == Map::<u128, u64>::empty()
    &&& states[0].capacity() >= 1
    &&& forall|i: int, j: int| 0 <= i <= j < times.len() ==> #[trigger] times[i] <= #[trigger] times[j]
    &&& forall|i: int| 0 <= i < ids.len() ==> #[trigger] marked_at(states[i], states[i + 1], ids[i], times[i], rs[i])
}

proof fn lemma_dedup_run_prefix(states: Seq<AntDedup>, ids: Seq<[u8; 16]>, times: Seq<u64>, rs: Seq<bool>, n: int)
    requires
        dedup_run(states, ids, times, rs),
        0 <= n <= ids.len(),
    ensures
        states[n].capacity() == states[0].capacity(),
        states[n].ttl() == states[0].ttl(),
        states[n].order().len() <= states[n].capacity(),
        n > 0 ==> dedup_in_time(states[n].order(), states[n].seen(), times[n - 1]),
        n == 0 ==> dedup_consistent(states[n].order(), states[n].seen()),
    decreases n,
{
    if n == 0 {
        assert(states[0].order().no_duplicates());
    } else {
        lemma_dedup_run_prefix(states, ids, times, rs, n - 1);
        let t = times[n - 1];
        let k = n - 1;
        assert(marked_at(states[k], states[k + 1], ids[k], times[k], rs[k]));
        if n > 1 {
            assert(times[n - 2] <= t);
        }
        assert(dedup_in_time(states[n - 1].order(), states[n - 1].seen(), t));
        lemma_dedup_in_time(states[n - 1], states[n], ids[n - 1], t, rs[n - 1]);
    }
}

proof fn lemma_dedup_run_step(states: Seq<AntDedup>, ids: Seq<[u8; 16]>, times: Seq<u64>, rs: Seq<bool>, i: int)
    requires
        dedup_run(states, ids, times, rs),
        0 <= i < ids.len(),
    ensures
        rs[i] == !(states[i].seen().contains_key(id_key(ids[i])) && unexpired(
            states[i].seen()[id_key(ids[i])],
            times[i],
            states[0].ttl(),
        )),
        rs[i] ==> states[i + 1].seen().contains_key(id_key(ids[i])) && states[i + 1].seen()[id_key(ids[i])] == times[i],
        forall|x: u128| #[trigger] states[i + 1].seen().contains_key(x) ==> unexpired(
            states[i + 1].seen()[x],
            times[i],
            states[0].ttl(),
        ),
{
    lemma_dedup_run_prefix(states, ids, times, rs, i);
    lemma_dedup_run_prefix(states, ids, times, rs, i + 1);
    let t = times[i];
    assert(marked_at(states[i], states[i + 1], ids[i], t, rs[i]));
    if i > 0 {
        assert(times[i - 1] <= t);
    }
    assert(dedup_in_time(states[i].order(), states[i].seen(), t));
    lemma_dedup_in_time(states[i], states[i + 1], ids[i], t, rs[i]);
}

/// Deduplication along a run from an empty cache with a clock that never goes back: each
/// call accepts its id exactly when no unexpired marking of it is remembered, an accepted
/// id is remembered with the time of its call, every remembered id is unexpired and
/// remembered once, and the cache never holds more than its capacity.
pub proof fn lemma_dedup_run(states: Seq<AntDedup>, ids: Seq<[u8; 16]>, times: Seq<u64>, rs: Seq<bool>)
    requires
        dedup_run(states, ids, times, rs),
    ensures
        forall|i: int|
            0 <= i < ids.len() ==> (#[trigger] rs[i] == !(states[i].seen().contains_key(id_key(ids[i])) && unexpired(
                states[i].seen()[id_key(ids[i])],
                times[i],
                states[0].ttl(),
            ))),
        forall|i: int|
            0 <= i < ids.len() && #[trigger] rs[i] ==> states[i + 1].seen().contains_key(id_key(ids[i]))
                && states[i + 1].seen()[id_key(ids[i])] == times[i],
        forall|i: int|
            #![trigger times[i]]
            0 <= i < ids.len() ==> forall|x: u128| #[trigger] states[i + 1].seen().contains_key(x) ==> unexpired(
                states[i + 1].seen()[x],
                times[i],
                states[0].ttl(),
            ),
        forall|i: int| 0 <= i <= ids.len() ==> (#[trigger] states[i]).order().len() <= states[0].capacity(),
        forall|i: int| 0 <= i <= ids.len() ==> (#[trigger] states[i]).order().no_duplicates(),
{
    assert forall|i: int| 0 <= i <= ids.len() implies (#[trigger] states[i]).order().len() <= states[0].capacity()
        && states[i].order().no_duplicates() by {
        lemma_dedup_run_prefix(states, ids, times, rs, i);
    }
    assert forall|i: int| 0 <= i < ids.len() implies (#[trigger] rs[i] == !(states[i].seen().contains_key(
        id_key(ids[i]),
    ) && unexpired(states[i].seen()[id_key(ids[i])], times[i], states[0].ttl()))) && (rs[i] ==> states[i
        + 1].seen().contains_key(id_key(ids[i])) && states[i + 1].seen()[id_key(ids[i])] == times[i]) by {
        lemma_dedup_run_step(states, ids, times, rs, i);
    }
    assert forall|i: int|
        #![trigger times[i]]
        0 <= i < ids.len() implies forall|x: u128| #[trigger] states[i + 1].seen().contains_key(x) ==> unexpired(
            states[i + 1].seen()[x],
            times[i],
            states[0].ttl(),
        ) by {
        lemma_dedup_run_step(states, ids, times, rs, i);
    }
}

proof fn lemma_forget_step(s: Map<u128, u64>, o: Seq<u128>, k: int)
    requires
        0 <= k < o.len(),
    ensures
        forget(s, o, k + 1) == forget(s, o, k).remove(o[k]),
{
    assert(o.take(k + 1).to_set() =~= o.take(k).to_set().insert(o[k])) by {
        assert(o.take(k + 1) =~= o.take(k).push(o[k]));
        o.take(k).lemma_push_to_set_commute(o[k]);
    }
    assert(forget(s, o, k + 1) =~= forget(s, o, k).remove(o[k]));
}

} // verus!
