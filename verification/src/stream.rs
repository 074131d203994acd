use std::collections::HashMap;
use vstd::prelude::*;

verus! {

broadcast use vstd::std_specs::hash::group_hash_axioms;

/// Lifecycle of a tunnel stream; each side closes independently.
#[derive(Debug, Clone, Copy, PartialEq, Eq, Structural)]
pub enum StreamState {
    Open,
    HalfClosedLocal,
    HalfClosedRemote,
    Closed,
}

#[derive(Debug)]
pub struct Stream {
    pub id: u32,
    pub state: StreamState,
}

/// State after the local side closes.
pub open spec fn after_close_local(s: StreamState) -> StreamState {
    match s {
        StreamState::Open => StreamState::HalfClosedLocal,
        StreamState::HalfClosedRemote => StreamState::Closed,
        other => other,
    }
}

/// State after the remote side closes.
pub open spec fn after_close_remote(s: StreamState) -> StreamState {
    match s {
        StreamState::Open => StreamState::HalfClosedRemote,
        StreamState::HalfClosedLocal => StreamState::Closed,
        other => other,
    }
}

/// Table of streams by id.
#[derive(Debug)]
pub struct StreamTable {
    streams: HashMap<u32, Stream>,
}

impl View for StreamTable {
    type V = Map<u32, StreamState>;

    closed spec fn view(&self) -> Map<u32, StreamState> {
        Map::new(|id: u32| self.streams@.contains_key(id), |id: u32| self.streams@[id].state)
    }
}

impl StreamTable {
    /// Every stream is filed under its own id.
    pub closed spec fn wf(&self) -> bool {
        forall|id: u32| #[trigger] self.streams@.contains_key(id) ==> self.streams@[id].id == id
    }

    pub fn new() -> (t: Self)
        ensures
            t.wf(),
            t@ == Map::<u32, StreamState>::empty(),
    {
        let t = StreamTable { streams: HashMap::new() };
        assert(t@ =~= Map::<u32, StreamState>::empty());
        t
    }

    /// Open (or reopen) stream `id`.
    pub fn open_stream(&mut self, id: u32)
        requires
            old(self).wf(),
        ensures
            final(self).wf(),
            final(self)@ == old(self)@.insert(id, StreamState::Open),
    {
        self.streams.insert(id, Stream { id, state: StreamState::Open });
        assert(self@ =~= old(self)@.insert(id, StreamState::Open));
    }

    /// The local side has finished sending on stream `id`.
    pub fn close_local(&mut self, id: u32)
        requires
            old(self).wf(),
        ensures
            final(self).wf(),
            final(self)@ == (if old(self)@.contains_key(id) {
                old(self)@.insert(id, after_close_local(old(self)@[id]))
            } else {
                old(self)@
            }),
    {
        let cur = match self.streams.get(&id) {
            Some(s) => Some(s.state),
            None => None,
        };
        if let Some(state) = cur {
            let next = match state {
                StreamState::Open => StreamState::HalfClosedLocal,
                StreamState::HalfClosedRemote => StreamState::Closed,
                other => other,
            };
            self.streams.insert(id, Stream { id, state: next });
            assert(self@ =~= old(self)@.insert(id, after_close_local(old(self)@[id])));
        }
    }

    /// The remote side has finished sending on stream `id`.
    pub fn close_remote(&mut self, id: u32)
        requires
            old(self).wf(),
        ensures
            final(self).wf(),
            final(self)@ == (if old(self)@.contains_key(id) {
                old(self)@.insert(id, after_close_remote(old(self)@[id]))
            } else {
                old(self)@
            }),
    {
        let cur = match self.streams.get(&id) {
            Some(s) => Some(s.state),
            None => None,
        };
        if let Some(state) = cur {
            let next = match state {
                StreamState::Open => StreamState::HalfClosedRemote,
                StreamState::HalfClosedLocal => StreamState::Closed,
                other => other,
            };
            self.streams.insert(id, Stream { id, state: next });
            assert(self@ =~= old(self)@.insert(id, after_close_remote(old(self)@[id])));
        }
    }

    /// Forget stream `id`.
    pub fn remove(&mut self, id: u32)
        requires
            old(self).wf(),
        ensures
            final(self).wf(),
            final(self)@ == old(self)@.remove(id),
    {
        self.streams.remove(&id);
        assert(self@ =~= old(self)@.remove(id));
    }

    /// Current state of stream `id`, if it is known.
    pub fn get_state(&self, id: u32) -> (r: Option<StreamState>)
        ensures
            r == (if self@.contains_key(id) { Some(self@[id]) } else { None::<StreamState> }),
    {
        match self.streams.get(&id) {
            Some(s) => Some(s.state),
            None => None,
        }
    }
}

/// Closing both sides, in either order, leaves a stream closed.
pub proof fn lemma_close_both_sides_closes(s: StreamState)
    requires
        s == StreamState::Open,
    ensures
        after_close_remote(after_close_local(s)) == StreamState::Closed,
        after_close_local(after_close_remote(s)) == StreamState::Closed,
{
}

/// A closed stream stays closed whatever side closes again.
pub proof fn lemma_closed_is_final(s: StreamState)
    requires
        s == StreamState::Closed,
    ensures
        after_close_local(s) == StreamState::Closed,
        after_close_remote(s) == StreamState::Closed,
{
}

} // verus!
