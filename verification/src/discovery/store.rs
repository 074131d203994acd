//! Bounded local cache of node advertisements, one per node id.
use crate::addr::Protocol;
use crate::clock::now_ms;
use crate::codec::bytes32_eq;
use crate::discovery::types::{NodeAdvertisement, NodeId};
use crate::node_config::NodeRole;
use vstd::prelude::*;

verus! {

broadcast use vstd::array::group_array_axioms;

/// Counters of discovery traffic and the cache size.
#[derive(Debug, Clone, Copy, PartialEq, Eq)]
pub struct DiscoveryStats {
    pub advertisements_received: u64,
    pub advertisements_accepted: u64,
    pub advertisements_rejected_expired: u64,
    pub advertisements_rejected_invalid: u64,
    pub queries_sent: u64,
    pub queries_received: u64,
    pub responses_sent: u64,
    pub responses_received: u64,
    pub store_size: usize,
}

pub open spec fn zero_stats() -> DiscoveryStats {
    DiscoveryStats {
        advertisements_received: 0,
        advertisements_accepted: 0,
        advertisements_rejected_expired: 0,
        advertisements_rejected_invalid: 0,
        queries_sent: 0,
        queries_received: 0,
        responses_sent: 0,
        responses_received: 0,
        store_size: 0,
    }
}

impl Default for DiscoveryStats {
    fn default() -> (r: Self)
        ensures
            r == zero_stats(),
    {
        DiscoveryStats {
            advertisements_received: 0,
            advertisements_accepted: 0,
            advertisements_rejected_expired: 0,
            advertisements_rejected_invalid: 0,
            queries_sent: 0,
            queries_received: 0,
            responses_sent: 0,
            responses_received: 0,
            store_size: 0,
        }
    }
}

pub open spec fn inc(x: u64) -> u64 {
    if x == u64::MAX {
        x
    } else {
        (x + 1) as u64
    }
}

/// No two advertisements of one node.
pub open spec fn distinct_ids(s: Seq<NodeAdvertisement>) -> bool {
    forall|i: int, j: int| 0 <= i < j < s.len() ==> #[trigger] s[i].node_id != #[trigger] s[j].node_id
}

/// The first position at or after `i` of node `id`.
pub open spec fn index_of_id_from(s: Seq<NodeAdvertisement>, id: NodeId, i: int) -> Option<int>
    decreases s.len() - i,
{
    if i < 0 || i >= s.len() {
        None
    } else if s[i].node_id == id {
        Some(i)
    } else {
        index_of_id_from(s, id, i + 1)
    }
}

pub open spec fn index_of_id(s: Seq<NodeAdvertisement>, id: NodeId) -> Option<int> {
    index_of_id_from(s, id, 0)
}

/// `s` with `a` replacing the advertisement of its node, or appended.
pub open spec fn upsert(s: Seq<NodeAdvertisement>, a: NodeAdvertisement) -> Seq<NodeAdvertisement> {
    match index_of_id(s, a.node_id) {
        Some(i) => s.update(i, a),
        None => s.push(a),
    }
}

/// Position of the first advertisement with the earliest expiry.
pub open spec fn min_expiry_index(s: Seq<NodeAdvertisement>) -> int
    decreases s.len(),
{
    if s.len() <= 1 {
        0
    } else {
        let j = min_expiry_index(s.drop_last());
        if s.last().expiry() < s[j].expiry() {
            s.len() - 1
        } else {
            j
        }
    }
}

/// What `insert` keeps: a stale advertisement (zero TTL or expired) changes nothing;
/// otherwise it replaces its node's entry, or joins after the entry expiring first was
/// evicted from a full cache.
pub open spec fn after_insert(s: Seq<NodeAdvertisement>, max: usize, a: NodeAdvertisement, now: u64) -> Seq<
    NodeAdvertisement,
> {
    if a.ttl_ms == 0 || !a.fresh_at(now) {
        s
    } else if s.len() >= max && index_of_id(s, a.node_id) is None {
        upsert(s.remove(min_expiry_index(s)), a)
    } else {
        upsert(s, a)
    }
}

/// The counters after an advertisement was offered at `now` and the cache holds `len`
/// entries: a stale one counts as rejected, a fresh one as accepted.
pub open spec fn counters_after_insert(c: DiscoveryStats, a: NodeAdvertisement, now: u64, len: nat) -> DiscoveryStats {
    if a.ttl_ms == 0 || !a.fresh_at(now) {
        DiscoveryStats {
            advertisements_received: inc(c.advertisements_received),
            advertisements_rejected_expired: inc(c.advertisements_rejected_expired),
            ..c
        }
    } else {
        DiscoveryStats {
            advertisements_received: inc(c.advertisements_received),
            advertisements_accepted: inc(c.advertisements_accepted),
            store_size: len as usize,
            ..c
        }
    }
}

/// Entries and counters after offering each advertisement in turn at `now`.
pub open spec fn after_insert_all(
    s: Seq<NodeAdvertisement>,
    c: DiscoveryStats,
    max: usize,
    advs: Seq<NodeAdvertisement>,
    now: u64,
) -> (Seq<NodeAdvertisement>, DiscoveryStats)
    decreases advs.len(),
{
    if advs.len() == 0 {
        (s, c)
    } else {
        let (s1, c1) = after_insert_all(s, c, max, advs.drop_last(), now);
        let s2 = after_insert(s1, max, advs.last(), now);
        (s2, counters_after_insert(c1, advs.last(), now, s2.len()))
    }
}

/// The counters after purging down to `len` entries.
pub open spec fn counters_after_purge(c: DiscoveryStats, len: nat) -> DiscoveryStats {
    DiscoveryStats { store_size: len as usize, ..c }
}

/// The advertisements of `s` that satisfy a query at `now`, in order.
pub open spec fn matching(s: Seq<NodeAdvertisement>, now: u64, protocol: Option<Protocol>, role: Option<NodeRole>) -> Seq<
    NodeAdvertisement,
>
    decreases s.len(),
{
    if s.len() == 0 {
        s
    } else {
        let rest = matching(s.drop_last(), now, protocol, role);
        let a = s.last();
        if a.fresh_at(now) && (protocol matches Some(p) ==> a.addr.protocol == p) && (role matches Some(r) ==> a.role
            == r) {
            rest.push(a)
        } else {
            rest
        }
    }
}

/// The advertisements of `s` with role `role`, in order.
pub open spec fn with_role(s: Seq<NodeAdvertisement>, role: NodeRole) -> Seq<NodeAdvertisement>
    decreases s.len(),
{
    if s.len() == 0 {
        s
    } else if s.last().role == role {
        with_role(s.drop_last(), role).push(s.last())
    } else {
        with_role(s.drop_last(), role)
    }
}

/// The fresh advertisements of `s`, in order.
pub open spec fn fresh_only(s: Seq<NodeAdvertisement>, now: u64) -> Seq<NodeAdvertisement>
    decreases s.len(),
{
    if s.len() == 0 {
        s
    } else if s.last().fresh_at(now) {
        fresh_only(s.drop_last(), now).push(s.last())
    } else {
        fresh_only(s.drop_last(), now)
    }
}

/// Where `key` goes in a list sorted newest first: after every entry at least as new.
pub open spec fn newest_first_pos(sorted: Seq<NodeAdvertisement>, key: u64, j: int) -> int
    decreases sorted.len() - j,
{
    if j < 0 || j >= sorted.len() {
        sorted.len() as int
    } else if sorted[j].advertised_at_ms < key {
        j
    } else {
        newest_first_pos(sorted, key, j + 1)
    }
}

/// `s` sorted newest first by advertisement time, equal times in their order in `s`.
pub open spec fn newest_first(s: Seq<NodeAdvertisement>) -> Seq<NodeAdvertisement>
    decreases s.len(),
{
    if s.len() == 0 {
        s
    } else {
        let t = newest_first(s.drop_last());
        t.insert(newest_first_pos(t, s.last().advertised_at_ms, 0), s.last())
    }
}

/// The advertisement fits a query at `now`: fresh, and of the protocol and role asked for
/// when those are given.
pub open spec fn answers_query(a: NodeAdvertisement, now: u64, protocol: Option<Protocol>, role: Option<NodeRole>) -> bool {
    &&& a.fresh_at(now)
    &&& protocol matches Some(p) ==> a.addr.protocol == p
    &&& role matches Some(r) ==> a.role == r
}

proof fn lemma_matching_members(s: Seq<NodeAdvertisement>, now: u64, protocol: Option<Protocol>, role: Option<NodeRole>)
    ensures
        ({
            let m = matching(s, now, protocol, role);
            &&& forall|i: int| 0 <= i < m.len() ==> s.contains(#[trigger] m[i]) && answers_query(m[i], now, protocol, role)
            &&& forall|j: int| 0 <= j < s.len() && answers_query(#[trigger] s[j], now, protocol, role) ==> m.contains(s[j])
        }),
    decreases s.len(),
{
    if s.len() > 0 {
        let t = s.drop_last();
        lemma_matching_members(t, now, protocol, role);
        let m = matching(s, now, protocol, role);
        let mt = matching(t, now, protocol, role);
        assert forall|i: int| 0 <= i < m.len() implies s.contains(#[trigger] m[i]) && answers_query(m[i], now, protocol, role) by {
            if i < mt.len() {
                assert(m[i] == mt[i]);
                let k = choose|k: int| 0 <= k < t.len() && t[k] == mt[i];
                assert(s[k] == t[k]);
            } else {
                assert(m[i] == s.last());
                assert(s[s.len() - 1] == s.last());
            }
        }
        assert forall|j: int| 0 <= j < s.len() && answers_query(#[trigger] s[j], now, protocol, role) implies m.contains(s[j]) by {
            if j < t.len() {
                assert(s[j] == t[j]);
                assert(mt.contains(t[j]));
                let k = choose|k: int| 0 <= k < mt.len() && mt[k] == t[j];
                assert(m[k] == mt[k]);
            } else {
                assert(m[m.len() - 1] == s.last());
            }
        }
    }
}

proof fn lemma_newest_first_pos(sorted: Seq<NodeAdvertisement>, key: u64, j: int)
    requires
        0 <= j <= sorted.len(),
    ensures
        j <= newest_first_pos(sorted, key, j) <= sorted.len(),
        forall|i: int| j <= i < newest_first_pos(sorted, key, j) ==> (#[trigger] sorted[i]).advertised_at_ms >= key,
        newest_first_pos(sorted, key, j) < sorted.len() ==> sorted[newest_first_pos(sorted, key, j)].advertised_at_ms < key,
    decreases sorted.len() - j,
{
    if j < sorted.len() && sorted[j].advertised_at_ms >= key {
        lemma_newest_first_pos(sorted, key, j + 1);
    }
}

proof fn lemma_insert_members(u: Seq<NodeAdvertisement>, p: int, x: NodeAdvertisement)
    requires
        0 <= p <= u.len(),
    ensures
        forall|y: NodeAdvertisement| u.insert(p, x).contains(y) <==> (u.contains(y) || y == x),
{
    let r = u.insert(p, x);
    assert forall|y: NodeAdvertisement| r.contains(y) <==> (u.contains(y) || y == x) by {
        if r.contains(y) {
            let k = choose|k: int| 0 <= k < r.len() && r[k] == y;
            if k < p {
                assert(u[k] == y);
            } else if k > p {
                assert(u[k - 1] == y);
            }
        }
        if u.contains(y) {
            let m = choose|m: int| 0 <= m < u.len() && u[m] == y;
            if m < p {
                assert(r[m] == y);
            } else {
                assert(r[m + 1] == y);
            }
        }
        if y == x {
            assert(r[p] == y);
        }
    }
}

proof fn lemma_drop_last_members(s: Seq<NodeAdvertisement>)
    requires
        s.len() > 0,
    ensures
        forall|y: NodeAdvertisement| s.contains(y) <==> (s.drop_last().contains(y) || y == s.last()),
{
    let t = s.drop_last();
    assert forall|y: NodeAdvertisement| s.contains(y) <==> (t.contains(y) || y == s.last()) by {
        if s.contains(y) {
            let k = choose|k: int| 0 <= k < s.len() && s[k] == y;
            if k < t.len() {
                assert(t[k] == y);
            }
        }
        if t.contains(y) {
            let k = choose|k: int| 0 <= k < t.len() && t[k] == y;
            assert(s[k] == y);
        }
        if y == s.last() {
            assert(s[s.len() - 1] == y);
        }
    }
}

proof fn lemma_sorted_insert_newest(u: Seq<NodeAdvertisement>, x: NodeAdvertisement)
    requires
        forall|i: int, j: int| 0 <= i < j < u.len() ==> (#[trigger] u[i]).advertised_at_ms >= (#[trigger] u[j]).advertised_at_ms,
    ensures
        ({
            let r = u.insert(newest_first_pos(u, x.advertised_at_ms, 0), x);
            forall|i: int, j: int| 0 <= i < j < r.len() ==> (#[trigger] r[i]).advertised_at_ms >= (#[trigger] r[j]).advertised_at_ms
        }),
{
    let p = newest_first_pos(u, x.advertised_at_ms, 0);
    lemma_newest_first_pos(u, x.advertised_at_ms, 0);
    let r = u.insert(p, x);
    assert forall|i: int, j: int| 0 <= i < j < r.len() implies (#[trigger] r[i]).advertised_at_ms >= (#[trigger] r[j]).advertised_at_ms by {
        if j < p {
            assert(r[i] == u[i] && r[j] == u[j]);
        } else if j == p {
            assert(r[i] == u[i]);
        } else if i < p {
            assert(r[i] == u[i] && r[j] == u[j - 1]);
            assert(u[i].advertised_at_ms >= x.advertised_at_ms);
            assert(x.advertised_at_ms > u[j - 1].advertised_at_ms || u[p].advertised_at_ms >= u[j - 1].advertised_at_ms);
        } else if i == p {
            assert(r[j] == u[j - 1]);
            assert(u[p].advertised_at_ms >= u[j - 1].advertised_at_ms || p == j - 1);
        } else {
            assert(r[i] == u[i - 1] && r[j] == u[j - 1]);
        }
    }
}

proof fn lemma_newest_first(s: Seq<NodeAdvertisement>)
    ensures
        newest_first(s).len() == s.len(),
        forall|x: NodeAdvertisement| newest_first(s).contains(x) <==> s.contains(x),
        forall|i: int, j: int|
            0 <= i < j < s.len() ==> (#[trigger] newest_first(s)[i]).advertised_at_ms >= (#[trigger] newest_first(
                s,
            )[j]).advertised_at_ms,
    decreases s.len(),
{
    if s.len() > 0 {
        let t = s.drop_last();
        lemma_newest_first(t);
        let u = newest_first(t);
        let x = s.last();
        let p = newest_first_pos(u, x.advertised_at_ms, 0);
        lemma_newest_first_pos(u, x.advertised_at_ms, 0);
        lemma_insert_members(u, p, x);
        lemma_drop_last_members(s);
        lemma_sorted_insert_newest(u, x);
        assert(newest_first(s) == u.insert(p, x));
    } else {
        assert forall|x: NodeAdvertisement| newest_first(s).contains(x) <==> s.contains(x) by {}
    }
}

/// The answer to a discovery query (up to `max` of the matching advertisements, newest
/// first): every advertisement in it is one the store holds, fresh at `now`, of the
/// protocol and role asked for when those are given; they come newest first; there are
/// `max` of them or all that match; and when no more than `max` match, every held
/// advertisement that fits the query is in the answer.
pub proof fn lemma_query_answer(s: Seq<NodeAdvertisement>, now: u64, protocol: Option<Protocol>, role: Option<NodeRole>, max: int)
    requires
        max >= 0,
    ensures
        ({
            let m = matching(s, now, protocol, role);
            let ans = newest_first(m).take(if max <= m.len() { max } else { m.len() as int });
            &&& forall|i: int| 0 <= i < ans.len() ==> s.contains(#[trigger] ans[i]) && answers_query(ans[i], now, protocol, role)
            &&& forall|i: int, j: int| 0 <= i < j < ans.len() ==> (#[trigger] ans[i]).advertised_at_ms >= (#[trigger] ans[j]).advertised_at_ms
            &&& ans.len() == (if max <= m.len() { max } else { m.len() as int })
            &&& m.len() <= max ==> forall|j: int| 0 <= j < s.len() && answers_query(#[trigger] s[j], now, protocol, role) ==> ans.contains(s[j])
        }),
{
    let m = matching(s, now, protocol, role);
    lemma_matching_members(s, now, protocol, role);
    lemma_newest_first(m);
    let nf = newest_first(m);
    let k = if max <= m.len() { max } else { m.len() as int };
    let ans = nf.take(k);
    assert forall|i: int| 0 <= i < ans.len() implies s.contains(#[trigger] ans[i]) && answers_query(ans[i], now, protocol, role) by {
        assert(ans[i] == nf[i]);
        assert(nf.contains(nf[i]));
        assert(m.contains(nf[i]));
        let q = choose|q: int| 0 <= q < m.len() && m[q] == nf[i];
        assert(s.contains(m[q]) && answers_query(m[q], now, protocol, role));
    }
    assert forall|i: int, j: int| 0 <= i < j < ans.len() implies (#[trigger] ans[i]).advertised_at_ms >= (#[trigger] ans[j]).advertised_at_ms by {
        assert(ans[i] == nf[i] && ans[j] == nf[j]);
    }
    if m.len() <= max {
        assert(ans =~= nf);
        assert forall|j: int| 0 <= j < s.len() && answers_query(#[trigger] s[j], now, protocol, role) implies ans.contains(s[j]) by {
            assert(m.contains(s[j]));
            assert(nf.contains(s[j]));
        }
    }
}

/// Bounded cache of node advertisements, one per node id.
#[derive(Debug)]
pub struct DiscoveryStore {
    entries: Vec<NodeAdvertisement>,
    max_entries: usize,
    stats: DiscoveryStats,
}

proof fn lemma_index_bound(s: Seq<NodeAdvertisement>, id: NodeId, i: int)
    requires
        0 <= i,
    ensures
        index_of_id_from(s, id, i) matches Some(k) ==> i <= k < s.len() && s[k].node_id == id,
        index_of_id_from(s, id, i) is None ==> forall|k: int| i <= k < s.len() ==> #[trigger] s[k].node_id != id,
    decreases s.len() - i,
{
    if 0 <= i < s.len() && s[i].node_id != id {
        lemma_index_bound(s, id, i + 1);
    }
}

proof fn lemma_min_expiry_bound(s: Seq<NodeAdvertisement>)
    requires
        s.len() > 0,
    ensures
        0 <= min_expiry_index(s) < s.len(),
        forall|k: int| 0 <= k < s.len() ==> s[min_expiry_index(s)].expiry() <= #[trigger] s[k].expiry(),
    decreases s.len(),
{
    if s.len() > 1 {
        lemma_min_expiry_bound(s.drop_last());
        assert forall|k: int| 0 <= k < s.len() - 1 implies #[trigger] s[k].expiry() == s.drop_last()[k].expiry() by {}
    }
}

fn find_id(s: &Vec<NodeAdvertisement>, id: &NodeId) -> (r: Option<usize>)
    ensures
        match index_of_id(s@, *id) {
            Some(k) => r matches Some(x) && x == k,
            None => r is None,
        },
        r matches Some(k) ==> k < s@.len(),
{
    let mut i: usize = 0;
    while i < s.len()
        invariant
            i <= s@.len(),
            index_of_id(s@, *id) == index_of_id_from(s@, *id, i as int),
        decreases s@.len() - i,
    {
        if bytes32_eq(&s[i].node_id, id) {
            assert(s@[i as int].node_id@ =~= id@);
            assert(s@[i as int].node_id =~= *id);
            return Some(i);
        }
        proof {
            if s@[i as int].node_id == *id {
                assert(s@[i as int].node_id@ == id@);
            }
        }
        i = i + 1;
    }
    None
}

impl DiscoveryStore {
    /// The cached advertisements.
    pub closed spec fn entries(&self) -> Seq<NodeAdvertisement> {
        self.entries@
    }

    pub closed spec fn max(&self) -> usize {
        self.max_entries
    }

    pub closed spec fn counters(&self) -> DiscoveryStats {
        self.stats
    }

    /// One advertisement per node, never more than the bound (at least 1).
    pub open spec fn wf(&self) -> bool {
        distinct_ids(self.entries()) && self.entries().len() <= self.max() && self.max() >= 1
    }

    /// An empty cache for at most `max_entries` advertisements (at least one).
    pub fn new(max_entries: usize) -> (r: Self)
        ensures
            r.wf(),
            r.entries() == Seq::<NodeAdvertisement>::empty(),
            r.max() == (if max_entries >= 1 { max_entries } else { 1 }),
            r.counters() == zero_stats(),
    {
        DiscoveryStore {
            entries: Vec::new(),
            max_entries: if max_entries >= 1 { max_entries } else { 1 },
            stats: DiscoveryStats::default(),
        }
    }

    /// Drop the advertisement that expires first (the first such when several do).
    fn evict_one(&mut self)
        requires
            old(self).wf(),
            old(self).entries().len() > 0,
        ensures
            final(self).entries() == old(self).entries().remove(min_expiry_index(old(self).entries())),
            final(self).max() == old(self).max(),
            final(self).counters() == old(self).counters(),
    {
        let mut best: usize = 0;
        let mut i: usize = 1;
        while i < self.entries.len()
            invariant
                1 <= i <= self.entries@.len(),
                best == min_expiry_index(self.entries@.take(i as int)),
                best < i,
            decreases self.entries@.len() - i,
        {
            proof {
                assert(self.entries@.take(i + 1).drop_last() =~= self.entries@.take(i as int));
                lemma_min_expiry_bound(self.entries@.take(i as int));
            }
            if self.entries[i].expires_at_ms() < self.entries[best].expires_at_ms() {
                best = i;
            }
            i = i + 1;
        }
        assert(self.entries@.take(self.entries@.len() as int) =~= self.entries@);
        self.entries.remove(best);
    }

    /// Accept an advertisement at `now`: a stale one (zero TTL or expired) is counted and
    /// dropped; otherwise it replaces its node's entry or is added, evicting the entry
    /// that expires first from a full cache.
    pub fn insert_at(&mut self, adv: NodeAdvertisement, now: u64)
        requires
            old(self).wf(),
        ensures
            final(self).wf(),
            final(self).max() == old(self).max(),
            final(self).entries() == after_insert(old(self).entries(), old(self).max(), adv, now),
            final(self).counters().advertisements_received == inc(old(self).counters().advertisements_received),
            final(self).counters() == counters_after_insert(old(self).counters(), adv, now, final(self).entries().len()),
            adv.ttl_ms == 0 || !adv.fresh_at(now) ==> final(self).counters() == (DiscoveryStats {
                advertisements_received: inc(old(self).counters().advertisements_received),
                advertisements_rejected_expired: inc(old(self).counters().advertisements_rejected_expired),
                ..old(self).counters()
            }),
            !(adv.ttl_ms == 0 || !adv.fresh_at(now)) ==> final(self).counters() == (DiscoveryStats {
                advertisements_received: inc(old(self).counters().advertisements_received),
                advertisements_accepted: inc(old(self).counters().advertisements_accepted),
                store_size: final(self).entries().len() as usize,
                ..old(self).counters()
            }),
    {
        self.stats.advertisements_received = self.stats.advertisements_received.saturating_add(1);
        if adv.ttl_ms == 0 || !adv.is_fresh(now) {
            self.stats.advertisements_rejected_expired = self.stats.advertisements_rejected_expired.saturating_add(1);
            return;
        }
        let ghost s0 = self.entries@;
        let existing = find_id(&self.entries, &adv.node_id);
        if self.entries.len() >= self.max_entries && existing.is_none() {
            proof {
                lemma_min_expiry_bound(s0);
            }
            self.evict_one();
            proof {
                assert forall|k: int| 0 <= k < self.entries@.len() implies #[trigger] self.entries@[k].node_id
                    != adv.node_id by {
                    lemma_index_bound(s0, adv.node_id, 0);
                    let m = min_expiry_index(s0);
                    if k < m {
                        assert(self.entries@[k] == s0[k]);
                    } else {
                        assert(self.entries@[k] == s0[k + 1]);
                    }
                }
                lemma_index_bound(self.entries@, adv.node_id, 0);
                if let Some(x) = index_of_id(self.entries@, adv.node_id) {
                    assert(self.entries@[x].node_id == adv.node_id);
                }
            }
        }
        let ghost s1 = self.entries@;
        proof {
            lemma_index_bound(s1, adv.node_id, 0);
        }
        match find_id(&self.entries, &adv.node_id) {
            Some(i) => {
                self.entries.set(i, adv);
            },
            None => {
                self.entries.push(adv);
            },
        }
        proof {
            assert forall|i: int, j: int| 0 <= i < j < self.entries@.len() implies #[trigger] self.entries@[i].node_id
                != #[trigger] self.entries@[j].node_id by {
                if let Some(x) = index_of_id(s1, adv.node_id) {
                    if i != x && j != x {
                        assert(s1[i].node_id != s1[j].node_id);
                    }
                } else {
                    if j < s1.len() {
                        assert(s1[i].node_id != s1[j].node_id);
                    }
                }
            }
        }
        self.stats.advertisements_accepted = self.stats.advertisements_accepted.saturating_add(1);
        self.stats.store_size = self.entries.len();
    }

    /// Accept an advertisement now (by the system clock).
    pub fn insert(&mut self, adv: NodeAdvertisement)
        requires
            old(self).wf(),
        ensures
            final(self).wf(),
            final(self).max() == old(self).max(),
            exists|now: u64| final(self).entries() == #[trigger] after_insert(old(self).entries(), old(self).max(), adv, now),
    {
        let now = now_ms();
        self.insert_at(adv, now);
    }

    /// Drop the advertisements expired at `now_ms`.
    pub fn purge_expired(&mut self, now_ms: u64)
        requires
            old(self).wf(),
        ensures
            final(self).wf(),
            final(self).max() == old(self).max(),
            final(self).entries() == fresh_only(old(self).entries(), now_ms),
            final(self).counters() == (DiscoveryStats {
                store_size: final(self).entries().len() as usize,
                ..old(self).counters()
            }),
    {
        let mut kept: Vec<NodeAdvertisement> = Vec::new();
        let mut i: usize = 0;
        let ghost s = self.entries@;
        while i < self.entries.len()
            invariant
                self.entries@ == s,
                i <= s.len(),
                kept@ == fresh_only(s.take(i as int), now_ms),
                kept@.len() <= i,
                forall|k: int|
                    #![trigger kept@[k]]
                    0 <= k < kept@.len() ==> exists|m: int| #![trigger s[m]] 0 <= m < i && s[m] == kept@[k],
                distinct_ids(kept@),
                distinct_ids(s),
            decreases s.len() - i,
        {
            proof {
                assert(s.take(i + 1).drop_last() =~= s.take(i as int));
            }
            if self.entries[i].is_fresh(now_ms) {
                let a = self.entries[i].duplicate();
                proof {
                    assert forall|k: int| 0 <= k < kept@.len() implies #[trigger] kept@[k].node_id != a.node_id by {
                        let m = choose|m: int| #![trigger s[m]] 0 <= m < i && s[m] == kept@[k];
                        assert(s[m].node_id != s[i as int].node_id);
                    }
                }
                kept.push(a);
            }
            i = i + 1;
        }
        assert(s.take(s.len() as int) =~= s);
        self.entries = kept;
        self.stats.store_size = self.entries.len();
    }

    /// The advertisement of node `id`.
    pub fn get(&self, id: &NodeId) -> (r: Option<&NodeAdvertisement>)
        ensures
            match index_of_id(self.entries(), *id) {
                Some(k) => r matches Some(a) && *a == self.entries()[k],
                None => r is None,
            },
    {
        proof {
            lemma_index_bound(self.entries@, *id, 0);
        }
        match find_id(&self.entries, id) {
            Some(i) => Some(&self.entries[i]),
            None => None,
        }
    }

    /// Every cached advertisement.
    pub fn all_known(&self) -> (r: Vec<NodeAdvertisement>)
        ensures
            r@ == self.entries(),
    {
        let mut out: Vec<NodeAdvertisement> = Vec::new();
        let mut i: usize = 0;
        while i < self.entries.len()
            invariant
                i <= self.entries@.len(),
                out@ == self.entries@.take(i as int),
            decreases self.entries@.len() - i,
        {
            out.push(self.entries[i].duplicate());
            i = i + 1;
            assert(out@ =~= self.entries@.take(i as int));
        }
        assert(self.entries@.take(self.entries@.len() as int) =~= self.entries@);
        out
    }

    fn known_with_role(&self, role: NodeRole) -> (r: Vec<NodeAdvertisement>)
        ensures
            r@ == with_role(self.entries(), role),
    {
        let mut out: Vec<NodeAdvertisement> = Vec::new();
        let mut i: usize = 0;
        while i < self.entries.len()
            invariant
                i <= self.entries@.len(),
                out@ == with_role(self.entries@.take(i as int), role),
            decreases self.entries@.len() - i,
        {
            proof {
                assert(self.entries@.take(i + 1).drop_last() =~= self.entries@.take(i as int));
            }
            if self.entries[i].role == role {
                out.push(self.entries[i].duplicate());
            }
            i = i + 1;
        }
        assert(self.entries@.take(self.entries@.len() as int) =~= self.entries@);
        out
    }

    /// The cached relays.
    pub fn known_relays(&self) -> (r: Vec<NodeAdvertisement>)
        ensures
            r@ == with_role(self.entries(), NodeRole::Relay),
    {
        self.known_with_role(NodeRole::Relay)
    }

    /// The cached exits.
    pub fn known_exits(&self) -> (r: Vec<NodeAdvertisement>)
        ensures
            r@ == with_role(self.entries(), NodeRole::Exit),
    {
        self.known_with_role(NodeRole::Exit)
    }

    /// Up to `max` advertisements fresh at `now_ms` that match the protocol and role (when
    /// given), newest first.
    pub fn fresh_candidates(&self, now_ms: u64, protocol: Option<Protocol>, role: Option<NodeRole>, max: usize) -> (r:
        Vec<NodeAdvertisement>)
        ensures
            r@ == newest_first(matching(self.entries(), now_ms, protocol, role)).take(
                if max <= matching(self.entries(), now_ms, protocol, role).len() {
                    max as int
                } else {
                    matching(self.entries(), now_ms, protocol, role).len() as int
                },
            ),
    {
        let ghost s = self.entries@;
        let mut cands: Vec<NodeAdvertisement> = Vec::new();
        let mut i: usize = 0;
        while i < self.entries.len()
            invariant
                self.entries@ == s,
                i <= s.len(),
                cands@ == matching(s.take(i as int), now_ms, protocol, role),
            decreases s.len() - i,
        {
            proof {
                assert(s.take(i + 1).drop_last() =~= s.take(i as int));
            }
            let a = &self.entries[i];
            let proto_ok = match protocol {
                Some(p) => a.addr.protocol == p,
                None => true,
            };
            let role_ok = match role {
                Some(r) => a.role == r,
                None => true,
            };
            if a.is_fresh(now_ms) && proto_ok && role_ok {
                cands.push(a.duplicate());
            }
            i = i + 1;
        }
        assert(s.take(s.len() as int) =~= s);
        let mut sorted: Vec<NodeAdvertisement> = Vec::new();
        let mut k: usize = 0;
        while k < cands.len()
            invariant
                k <= cands@.len(),
                sorted@ == newest_first(cands@.take(k as int)),
                sorted@.len() == k,
            decreases cands@.len() - k,
        {
            proof {
                assert(cands@.take(k + 1).drop_last() =~= cands@.take(k as int));
            }
            let key = cands[k].advertised_at_ms;
            let mut pos: usize = 0;
            while pos < sorted.len() && sorted[pos].advertised_at_ms >= key
                invariant
                    pos <= sorted@.len(),
                    newest_first_pos(sorted@, key, 0) == newest_first_pos(sorted@, key, pos as int),
                decreases sorted@.len() - pos,
            {
                pos = pos + 1;
            }
            sorted.insert(pos, cands[k].duplicate());
            k = k + 1;
        }
        assert(cands@.take(cands@.len() as int) =~= cands@);
        let ghost full = sorted@;
        let keep = if max <= sorted.len() {
            max
        } else {
            sorted.len()
        };
        sorted.truncate(keep);
        assert(sorted@ =~= full.take(keep as int));
        sorted
    }

    /// The counters, with the current cache size.
    pub fn stats(&self) -> (r: DiscoveryStats)
        ensures
            r == (DiscoveryStats { store_size: self.entries().len() as usize, ..self.counters() }),
    {
        DiscoveryStats { store_size: self.entries.len(), ..self.stats }
    }

    pub fn on_query_sent(&mut self)
        ensures
            final(self).entries() == old(self).entries(),
            final(self).max() == old(self).max(),
            final(self).counters() == (DiscoveryStats {
                queries_sent: inc(old(self).counters().queries_sent),
                ..old(self).counters()
            }),
    {
        self.stats.queries_sent = self.stats.queries_sent.saturating_add(1);
    }

    pub fn on_query_received(&mut self)
        ensures
            final(self).entries() == old(self).entries(),
            final(self).max() == old(self).max(),
            final(self).counters() == (DiscoveryStats {
                queries_received: inc(old(self).counters().queries_received),
                ..old(self).counters()
            }),
    {
        self.stats.queries_received = self.stats.queries_received.saturating_add(1);
    }

    pub fn on_response_sent(&mut self)
        ensures
            final(self).entries() == old(self).entries(),
            final(self).max() == old(self).max(),
            final(self).counters() == (DiscoveryStats {
                responses_sent: inc(old(self).counters().responses_sent),
                ..old(self).counters()
            }),
    {
        self.stats.responses_sent = self.stats.responses_sent.saturating_add(1);
    }

    pub fn on_response_received(&mut self)
        ensures
            final(self).entries() == old(self).entries(),
            final(self).max() == old(self).max(),
            final(self).counters() == (DiscoveryStats {
                responses_received: inc(old(self).counters().responses_received),
                ..old(self).counters()
            }),
    {
        self.stats.responses_received = self.stats.responses_received.saturating_add(1);
    }
}

} // verus!
