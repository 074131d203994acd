//! Tables of per-stream records that linger for a while after they are made: each
//! record carries the time it was made, and purging drops records older than the linger
//! time, then the oldest records beyond a capacity.
use std::collections::HashMap;
use vstd::prelude::*;
use vstd::std_specs::iter::IteratorSpec;

verus! {

broadcast use vstd::std_specs::hash::group_hash_axioms;

/// A record made at `t` is still kept at `now`: at most `linger` has passed (none if `t`
/// lies after `now`).
pub open spec fn lingers(now: u64, t: u64, linger: u64) -> bool {
    (if now >= t {
        now - t
    } else {
        0
    }) <= linger
}

/// Records keyed by stream id, each with the time it was made (in milliseconds).
#[derive(Debug)]
pub struct LingerTable<V> {
    times: HashMap<u32, u64>,
    values: HashMap<u32, V>,
}

/// The (id, time) pairs of a map, in the map's iteration order.
fn time_entries(m: &HashMap<u32, u64>) -> (r: Vec<(u32, u64)>)
    ensures
        r@.len() == m@.dom().len(),
        forall|i: int| 0 <= i < r@.len() ==> m@.contains_key(#[trigger] r@[i].0) && m@[r@[i].0] == r@[i].1,
        forall|k: u32| m@.contains_key(k) ==> exists|i: int| 0 <= i < r@.len() && #[trigger] r@[i].0 == k,
{
    let mut out: Vec<(u32, u64)> = Vec::new();
    for (k, v) in it: m.iter()
        invariant
            out@.len() == it.index(),
            it.seq() == vstd::std_specs::hash::spec_hash_map_iter(m).remaining(),
            forall|i: int| 0 <= i < it.index() ==> out@[i] == (*it.seq()[i].0, *it.seq()[i].1),
    {
        out.push((*k, *v));
    }
    proof {
        let v = vstd::std_specs::hash::spec_hash_map_iter(m).remaining();
        assert forall|k: u32| m@.contains_key(k) implies exists|i: int|
            0 <= i < out@.len() && #[trigger] out@[i].0 == k by {
            assert(v.contains((&k, &m@[k])));
            let i = choose|i: int| 0 <= i < v.len() && v[i] == (&k, &m@[k]);
            assert(out@[i].0 == k);
        }
    }
    out
}

/// A key of `m` with the smallest time.
fn oldest_key(m: &HashMap<u32, u64>) -> (r: u32)
    requires
        m@.dom().len() > 0,
    ensures
        m@.contains_key(r),
        forall|k: u32| #[trigger] m@.contains_key(k) ==> m@[r] <= m@[k],
{
    let entries = time_entries(m);
    let mut best: usize = 0;
    let mut i: usize = 1;
    while i < entries.len()
        invariant
            entries@.len() == m@.dom().len(),
            forall|j: int| 0 <= j < entries@.len() ==> m@.contains_key(#[trigger] entries@[j].0) && m@[entries@[j].0]
                == entries@[j].1,
            1 <= i <= entries@.len(),
            best < i,
            forall|j: int| 0 <= j < i ==> entries@[best as int].1 <= #[trigger] entries@[j].1,
        decreases entries@.len() - i,
    {
        if entries[i].1 < entries[best].1 {
            best = i;
        }
        i = i + 1;
    }
    let k = entries[best].0;
    proof {
        assert forall|x: u32| #[trigger] m@.contains_key(x) implies m@[k] <= m@[x] by {
            let j = choose|j: int| 0 <= j < entries@.len() && #[trigger] entries@[j].0 == x;
            assert(entries@[best as int].1 <= entries@[j].1);
        }
    }
    k
}

impl<V> LingerTable<V> {
    /// When each record was made.
    pub closed spec fn times(&self) -> Map<u32, u64> {
        self.times@
    }

    /// The records.
    pub closed spec fn values(&self) -> Map<u32, V> {
        self.values@
    }

    /// Every record has a time and every time a record.
    pub open spec fn wf(&self) -> bool {
        self.times().dom() == self.values().dom()
    }

    pub fn new() -> (r: Self)
        ensures
            r.wf(),
            r.times() == Map::<u32, u64>::empty(),
    {
        let r = LingerTable { times: HashMap::new(), values: HashMap::new() };
        assert(r.times().dom() =~= r.values().dom());
        r
    }

    /// A table holds finitely many records.
    pub proof fn lemma_times_finite(&self)
        ensures
            self.times().dom().finite(),
    {
    }

    /// Number of records.
    pub fn len(&self) -> (r: usize)
        ensures
            r == self.times().len(),
    {
        self.times.len()
    }

    pub fn contains(&self, id: u32) -> (r: bool)
        ensures
            r == self.times().contains_key(id),
    {
        self.times.contains_key(&id)
    }

    /// When record `id` was made.
    pub fn time_of(&self, id: u32) -> (r: Option<u64>)
        ensures
            r == (if self.times().contains_key(id) {
                Some(self.times()[id])
            } else {
                None::<u64>
            }),
    {
        match self.times.get(&id) {
            Some(t) => Some(*t),
            None => None,
        }
    }

    /// Record `id`.
    pub fn get(&self, id: u32) -> (r: Option<&V>)
        requires
            self.wf(),
        ensures
            r == (if self.times().contains_key(id) {
                Some(&self.values()[id])
            } else {
                None::<&V>
            }),
    {
        self.values.get(&id)
    }

    /// Make (or remake) record `id` at time `at`.
    pub fn insert(&mut self, id: u32, at: u64, v: V)
        requires
            old(self).wf(),
        ensures
            final(self).wf(),
            final(self).times() == old(self).times().insert(id, at),
            final(self).values() == old(self).values().insert(id, v),
    {
        self.times.insert(id, at);
        self.values.insert(id, v);
        assert(self.times().dom() =~= self.values().dom());
    }

    /// Replace the value of an existing record, keeping its time.
    pub fn set_value(&mut self, id: u32, v: V)
        requires
            old(self).wf(),
            old(self).times().contains_key(id),
        ensures
            final(self).wf(),
            final(self).times() == old(self).times(),
            final(self).values() == old(self).values().insert(id, v),
    {
        self.values.insert(id, v);
        assert(self.times().dom() =~= self.values().dom());
    }

    /// Drop record `id`, handing back its time and value.
    pub fn take(&mut self, id: u32) -> (r: Option<(u64, V)>)
        requires
            old(self).wf(),
        ensures
            final(self).wf(),
            final(self).times() == old(self).times().remove(id),
            final(self).values() == old(self).values().remove(id),
            r is Some <==> old(self).times().contains_key(id),
            r matches Some((t, v)) ==> t == old(self).times()[id] && v == old(self).values()[id],
    {
        let t = self.times.remove(&id);
        let v = self.values.remove(&id);
        assert(self.times().dom() =~= self.values().dom());
        match (t, v) {
            (Some(t), Some(v)) => Some((t, v)),
            _ => None,
        }
    }

    /// Drop record `id`.
    pub fn remove(&mut self, id: u32)
        requires
            old(self).wf(),
        ensures
            final(self).wf(),
            final(self).times() == old(self).times().remove(id),
            final(self).values() == old(self).values().remove(id),
    {
        self.times.remove(&id);
        self.values.remove(&id);
        assert(self.times().dom() =~= self.values().dom());
    }

    /// Drop the records made more than `linger` before `now`; then, if more than `cap`
    /// remain, drop the oldest until `cap` remain.
    pub fn purge(&mut self, now: u64, linger: u64, cap: usize)
        requires
            old(self).wf(),
        ensures
            final(self).wf(),
            forall|k: u32| #[trigger]
                final(self).times().contains_key(k) ==> old(self).times().contains_key(k) && final(self).times()[k]
                    == old(self).times()[k] && final(self).values()[k] == old(self).values()[k] && lingers(
                    now,
                    old(self).times()[k],
                    linger,
                ),
            final(self).times().len() <= cap,
            (forall|k: u32|
                #[trigger] old(self).times().contains_key(k) && lingers(now, old(self).times()[k], linger)
                    ==> final(self).times().contains_key(k)) || final(self).times().len() == cap,
            forall|r: u32, k: u32|
                old(self).times().contains_key(r) && lingers(now, old(self).times()[r], linger)
                    && !final(self).times().contains_key(r) && #[trigger] final(self).times().contains_key(k)
                    ==> #[trigger] old(self).times()[r] <= old(self).times()[k],
            old(self).times().len() <= cap ==> forall|k: u32|
                #[trigger] old(self).times().contains_key(k) && lingers(now, old(self).times()[k], linger)
                    ==> final(self).times().contains_key(k),
    {
        let ghost old_times = self.times@;
        let ghost old_values = self.values@;
        let entries = time_entries(&self.times);
        let mut i: usize = 0;
        while i < entries.len()
            invariant
                self.wf(),
                entries@.len() == old_times.dom().len(),
                forall|j: int| 0 <= j < entries@.len() ==> old_times.contains_key(#[trigger] entries@[j].0)
                    && old_times[entries@[j].0] == entries@[j].1,
                forall|k: u32| old_times.contains_key(k) ==> exists|j: int|
                    0 <= j < entries@.len() && #[trigger] entries@[j].0 == k,
                i <= entries@.len(),
                forall|k: u32| #[trigger]
                    self.times@.contains_key(k) ==> old_times.contains_key(k) && self.times@[k] == old_times[k]
                        && self.values@[k] == old_values[k],
                forall|k: u32|
                    #[trigger] old_times.contains_key(k) && lingers(now, old_times[k], linger) ==> self.times@.contains_key(k),
                forall|j: int| 0 <= j < i ==> !lingers(now, entries@[j].1, linger) ==> !self.times@.contains_key(#[trigger] entries@[j].0),
                forall|k: u32| #[trigger]
                    old_times.contains_key(k) && !self.times@.contains_key(k) ==> !lingers(now, old_times[k], linger),
            decreases entries@.len() - i,
        {
            let (id, t) = entries[i];
            if now.saturating_sub(t) > linger {
                self.times.remove(&id);
                self.values.remove(&id);
                assert(self.times().dom() =~= self.values().dom());
            }
            i = i + 1;
        }
        proof {
            assert forall|k: u32| #[trigger] self.times@.contains_key(k) implies lingers(now, old_times[k], linger) by {
                let j = choose|j: int| 0 <= j < entries@.len() && #[trigger] entries@[j].0 == k;
                assert(old_times.contains_key(k));
            }
        }
        let ghost fresh = self.times@;
        proof {
            assert(old_times.dom().finite());
            assert(fresh.dom().subset_of(old_times.dom()));
            vstd::set_lib::lemma_len_subset(fresh.dom(), old_times.dom());
        }
        let ghost mut dropped_any = false;
        while self.times.len() > cap
            invariant
                self.wf(),
                forall|k: u32| #[trigger]
                    self.times@.contains_key(k) ==> fresh.contains_key(k) && self.times@[k] == fresh[k]
                        && self.values@[k] == old_values[k],
                forall|k: u32| #[trigger] fresh.contains_key(k) ==> old_times.contains_key(k) && fresh[k] == old_times[k]
                    && lingers(now, old_times[k], linger),
                forall|k: u32|
                    #[trigger] old_times.contains_key(k) && lingers(now, old_times[k], linger) ==> fresh.contains_key(k),
                dropped_any ==> self.times@.len() >= cap && fresh.len() > cap,
                fresh.len() <= old_times.len(),
                !dropped_any ==> self.times@ == fresh,
                forall|r: u32, k: u32|
                    fresh.contains_key(r) && !self.times@.contains_key(r) && #[trigger] self.times@.contains_key(k)
                        ==> #[trigger] fresh[r] <= fresh[k],
            decreases self.times@.len(),
        {
            let k = oldest_key(&self.times);
            let ghost before = self.times@;
            self.times.remove(&k);
            self.values.remove(&k);
            assert(self.times().dom() =~= self.values().dom());
            proof {
                dropped_any = true;
                assert(self.times@ == before.remove(k));
                assert forall|r: u32, x: u32|
                    fresh.contains_key(r) && !self.times@.contains_key(r) && #[trigger] self.times@.contains_key(x)
                        implies #[trigger] fresh[r] <= fresh[x] by {
                    assert(before.contains_key(x));
                    if r == k {
                        assert(before[k] <= before[x]);
                    } else {
                        assert(!before.contains_key(r));
                    }
                }
            }
        }
    }
}

} // verus!
