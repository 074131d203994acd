use crate::clock::{now_ms, reading_ms};
use crate::codec::{from_le_u32, from_le_u64, get_le_u32, get_le_u64, le_u32, le_u64, put_le_u32, put_le_u64};
use crate::protocol::StreamFrame;
use crate::roles::exit::{retransmit_timeout_for_rtt, retransmit_timeout_spec};
use crate::seqmap::{
    count_below, insert_sorted, key_map, keys_above, keys_increasing, lemma_count_below, lemma_count_below_unique,
    lemma_key_map_len, lemma_key_map_skip_below, lemma_key_map_sorted_insert, lemma_sorted_insert, sorted_insert, sum_u64,
};
use vstd::prelude::*;

verus! {

/// At most this many ACK latency samples are kept per stream.
pub const ACK_LATENCY_SAMPLE_CAP: usize = 4096;

/// ACK-only control message payload (carried inside a tunnel message).
#[derive(Debug, Clone, Copy, PartialEq, Eq, Structural)]
pub struct AckFrame {
    pub stream_id: u32,
    /// Next expected in-order frame sequence number (cumulative ACK).
    pub ack_seq: u64,
}

/// Wire bytes of an ACK frame: stream id (4 bytes) and cumulative ACK (8 bytes), little-endian.
pub open spec fn ack_frame_bytes(stream_id: u32, ack_seq: u64) -> Seq<u8> {
    le_u32(stream_id) + le_u64(ack_seq)
}

pub fn encode_ack_frame(a: &AckFrame) -> (r: Vec<u8>)
    ensures
        r@ == ack_frame_bytes(a.stream_id, a.ack_seq),
{
    let mut out: Vec<u8> = Vec::new();
    put_le_u32(&mut out, a.stream_id);
    put_le_u64(&mut out, a.ack_seq);
    out
}

/// Decode an ACK frame from the front of `data`; `None` when fewer than 12 bytes.
pub fn decode_ack_frame(data: &[u8]) -> (r: Option<AckFrame>)
    ensures
        data@.len() < 12 ==> r is None,
        data@.len() >= 12 ==> (r matches Some(a) && a.stream_id == from_le_u32(data@.subrange(0, 4)) && a.ack_seq
            == from_le_u64(data@.subrange(4, 12))),
{
    if data.len() < 12 {
        return None;
    }
    Some(AckFrame { stream_id: get_le_u32(data, 0), ack_seq: get_le_u64(data, 4) })
}

/// Decoding an encoded ACK frame gives it back.
pub proof fn lemma_ack_frame_roundtrip(stream_id: u32, ack_seq: u64, rest: Seq<u8>)
    ensures
        ({
            let s = ack_frame_bytes(stream_id, ack_seq) + rest;
            &&& s.len() >= 12
            &&& from_le_u32(s.subrange(0, 4)) == stream_id
            &&& from_le_u64(s.subrange(4, 12)) == ack_seq
        }),
{
    let s = ack_frame_bytes(stream_id, ack_seq) + rest;
    assert(s.subrange(0, 4) =~= le_u32(stream_id));
    assert(s.subrange(4, 12) =~= le_u64(ack_seq));
    crate::codec::lemma_le_u32(stream_id);
    crate::codec::lemma_le_u64(ack_seq);
}

/// How an incoming cumulative ACK compares with the highest one seen before.
#[derive(Debug, Clone, Copy, PartialEq, Eq, Structural)]
pub enum AckDisposition {
    Advanced,
    Stale,
    Regression,
}

/// What applying one cumulative ACK did.
#[derive(Debug, Clone, Copy, PartialEq, Eq, Structural)]
pub struct AckApplyDetails {
    pub disposition: AckDisposition,
    pub previous_ack_seq: u64,
    pub ack_seq: u64,
    pub acked_frames: usize,
    pub avg_latency_ms: Option<u64>,
    pub inflight_before: usize,
    pub inflight_after: usize,
    pub first_acked_seq: Option<u64>,
    pub last_acked_seq_exclusive: Option<u64>,
    pub gap_detected: bool,
}

/// Summary of the ACK latency samples of a stream.
#[derive(Debug, Clone, Copy, PartialEq, Eq, Structural)]
pub struct AckLatencySummary {
    pub avg_ms: Option<u64>,
    pub min_ms: Option<u64>,
    pub p50_ms: Option<u64>,
    pub p95_ms: Option<u64>,
    pub max_ms: Option<u64>,
}

impl Default for AckLatencySummary {
    fn default() -> (r: Self)
        ensures
            r == (AckLatencySummary {
                avg_ms: None,
                min_ms: None,
                p50_ms: None,
                p95_ms: None,
                max_ms: None,
            }),
    {
        AckLatencySummary { avg_ms: None, min_ms: None, p50_ms: None, p95_ms: None, max_ms: None }
    }
}

/// An outbound frame waiting for its ACK, with pacing metadata (times in ms).
#[derive(Debug, Clone)]
pub struct UnackedEntry {
    pub payload: Vec<u8>,
    /// Marks the explicit end-of-stream empty frame.
    pub is_end: bool,
    /// When this frame was first sent.
    pub first_sent_ms: u64,
    /// When this frame was last sent (initial send or retransmit).
    pub last_sent_ms: u64,
    /// How many times this frame has been retransmitted.
    pub retransmit_count: u64,
}

/// Per-stream reliable delivery state. The two frame maps are kept as
/// vectors in increasing sequence order.
pub struct ReliableStream {
    pub send_next: u64,
    pub recv_next: u64,
    /// Out-of-order received payloads, keyed by frame sequence number.
    pub recv_buffer: Vec<(u64, Vec<u8>)>,
    /// Unacknowledged outbound frames, keyed by frame sequence number.
    pub unacked: Vec<(u64, UnackedEntry)>,
    pub total_frames_sent: u64,
    pub total_frames_acked: u64,
    pub total_retransmits: u64,
    pub total_ack_latency_ms_sum: u128,
    pub total_ack_latency_samples: u64,
    pub ack_latency_samples_ms: Vec<u64>,
    pub highest_ack_seq_seen: u64,
}

pub open spec fn sat_add_u64(a: u64, b: int) -> u64 {
    if a + b > u64::MAX {
        u64::MAX
    } else {
        (a + b) as u64
    }
}

pub open spec fn sat_add_u128(a: u128, b: int) -> u128 {
    if a + b > u128::MAX {
        u128::MAX
    } else {
        (a + b) as u128
    }
}

pub open spec fn sat_sub_u64(a: u64, b: u64) -> u64 {
    if a >= b {
        (a - b) as u64
    } else {
        0
    }
}

/// When the ACK latency of an entry is measured from: its first send, or its latest send
/// once it has been retransmitted (the wait before a retransmission is not path delay).
pub open spec fn latency_start(e: UnackedEntry) -> u64 {
    if e.retransmit_count > 0 {
        e.last_sent_ms
    } else {
        e.first_sent_ms
    }
}

/// ACK latency of each entry at time `now`.
pub open spec fn latencies(s: Seq<(u64, UnackedEntry)>, now: u64) -> Seq<u64> {
    s.map_values(|p: (u64, UnackedEntry)| sat_sub_u64(now, latency_start(p.1)))
}

/// Number of frames a cumulative ACK of `ack` removes.
pub open spec fn acked_count(s: Seq<(u64, UnackedEntry)>, ack: u64) -> nat {
    if ack == 0 {
        0
    } else {
        count_below(s, ack)
    }
}

pub open spec fn min_nat(a: int, b: int) -> int {
    if a <= b {
        a
    } else {
        b
    }
}


/// Sequence number after `n`, wrapping at the end of the range.
pub open spec fn seq_after(n: u64) -> u64 {
    if n == u64::MAX {
        0
    } else {
        (n + 1) as u64
    }
}

/// Draining buffered frames in order starting at `next`: the payloads delivered,
/// the next expected sequence number after them, whether an empty (end-of-stream)
/// frame was among them, and how many frames were taken from the buffer.
pub open spec fn drain_in_order(buf: Seq<(u64, Vec<u8>)>, next: u64) -> (Seq<Seq<u8>>, u64, bool, nat)
    decreases buf.len(),
{
    if buf.len() > 0 && buf[0].0 == next {
        let r = drain_in_order(buf.drop_first(), seq_after(next));
        (seq![buf[0].1@] + r.0, r.1, buf[0].1@.len() == 0 || r.2, r.3 + 1)
    } else {
        (Seq::empty(), next, false, 0)
    }
}

/// The payloads of a vector of byte vectors.
pub open spec fn payload_views(v: Seq<Vec<u8>>) -> Seq<Seq<u8>> {
    v.map_values(|p: Vec<u8>| p@)
}


/// Values never decrease along the sequence.
pub open spec fn nondecreasing(s: Seq<u64>) -> bool {
    forall|i: int, j: int| 0 <= i <= j < s.len() ==> s[i] <= s[j]
}

/// Index of the `percent` quantile among `n` sorted samples: `(n - 1) * percent / 100`
/// rounded half up.
pub open spec fn quantile_index(n: nat, percent: nat) -> int {
    (((n - 1) * percent + 50) / 100) as int
}

/// The numeric order on samples.
pub open spec fn sample_leq() -> spec_fn(u64, u64) -> bool {
    |a: u64, b: u64| a <= b
}

/// The samples `s` sorted ascending.
pub open spec fn sorted_samples(s: Seq<u64>) -> Seq<u64> {
    s.sort_by(sample_leq())
}

/// A nondecreasing sequence with the same elements as `s` is `s` sorted: sorting has one
/// result.
pub proof fn lemma_sorted_samples_unique(s: Seq<u64>, t: Seq<u64>)
    requires
        nondecreasing(t),
        t.to_multiset() == s.to_multiset(),
    ensures
        t == sorted_samples(s),
        sorted_samples(s).len() == s.len(),
{
    let leq = sample_leq();
    assert(vstd::relations::total_ordering(leq));
    s.lemma_sort_by_ensures(leq);
    assert(vstd::relations::sorted_by(t, leq));
    vstd::seq_lib::lemma_sorted_unique(t, s.sort_by(leq), leq);
    broadcast use vstd::seq_lib::group_to_multiset_ensures;
    assert(t.len() == t.to_multiset().len());
    assert(s.len() == s.to_multiset().len());
}

/// A copy of `v` in nondecreasing order.
pub fn sorted_copy(v: &Vec<u64>) -> (r: Vec<u64>)
    ensures
        nondecreasing(r@),
        r@.to_multiset() == v@.to_multiset(),
        r@.len() == v@.len(),
{
    broadcast use vstd::seq_lib::group_to_multiset_ensures;
    let mut out: Vec<u64> = Vec::new();
    let mut i: usize = 0;
    while i < v.len()
        invariant
            i <= v@.len(),
            nondecreasing(out@),
            out@.to_multiset() == v@.take(i as int).to_multiset(),
            out@.len() == i,
        decreases v@.len() - i,
    {
        let x = v[i];
        let mut pos: usize = 0;
        while pos < out.len() && out[pos] <= x
            invariant
                pos <= out@.len(),
                forall|j: int| 0 <= j < pos ==> out@[j] <= x,
            decreases out@.len() - pos,
        {
            pos = pos + 1;
        }
        let ghost before = out@;
        out.insert(pos, x);
        proof {
            vstd::seq_lib::to_multiset_insert(before, pos as int, x);
            vstd::seq_lib::to_multiset_build(v@.take(i as int), x);
            assert(v@.take(i as int + 1) =~= v@.take(i as int).push(x));
            assert forall|a: int, b: int| 0 <= a <= b < out@.len() implies out@[a] <= out@[b] by {
                if a < pos && b > pos {
                    assert(out@[a] == before[a]);
                    assert(out@[b] == before[b - 1]);
                } else if a < pos && b < pos {
                    assert(out@[a] == before[a]);
                    assert(out@[b] == before[b]);
                } else if a > pos {
                    assert(out@[a] == before[a - 1]);
                    assert(out@[b] == before[b - 1]);
                } else if a == pos && b > pos {
                    assert(out@[b] == before[b - 1]);
                    if b - 1 >= pos {
                        // before[pos] > x when pos < before.len()
                        assert(before[pos as int] > x);
                        assert(before[pos as int] <= before[b - 1]);
                    }
                } else if a < pos && b == pos {
                    assert(out@[a] == before[a]);
                }
            }
        }
        i = i + 1;
    }
    assert(v@.take(v@.len() as int) =~= v@);
    out
}


/// How long an unacked frame waits before it is resent: `interval` ms, or, when a round
/// trip `rtt` (ms) is given (non-zero), the backoff timeout for its retransmission count.
pub open spec fn resend_wait(e: UnackedEntry, interval: u64, rtt: u64) -> u64 {
    if rtt == 0 {
        interval
    } else {
        retransmit_timeout_spec(rtt, e.retransmit_count)
    }
}

/// An unacked frame idle for at least its wait at time `now` is due for retransmission.
pub open spec fn is_due(e: UnackedEntry, now: u64, interval: u64, rtt: u64) -> bool {
    sat_sub_u64(now, e.last_sent_ms) >= resend_wait(e, interval, rtt)
}

/// Number of due frames among the first `i` entries.
pub open spec fn due_before(s: Seq<(u64, UnackedEntry)>, i: int, now: u64, interval: u64, rtt: u64) -> nat
    decreases i,
{
    if i <= 0 {
        0
    } else {
        due_before(s, i - 1, now, interval, rtt) + (if is_due(s[i - 1].1, now, interval, rtt) {
            1nat
        } else {
            0nat
        })
    }
}

/// Entry `i` is retransmitted: it is due and fewer than `max` due frames precede it.
pub open spec fn selected_for_retransmit(
    s: Seq<(u64, UnackedEntry)>,
    i: int,
    now: u64,
    interval: u64,
    rtt: u64,
    max: usize,
) -> bool {
    is_due(s[i].1, now, interval, rtt) && due_before(s, i, now, interval, rtt) < max
}

/// The entry after being retransmitted at `now`.
pub open spec fn retransmitted(e: UnackedEntry, now: u64) -> UnackedEntry {
    UnackedEntry {
        last_sent_ms: now,
        retransmit_count: sat_add_u64(e.retransmit_count, 1),
        ..e
    }
}

pub proof fn lemma_due_before_monotone(s: Seq<(u64, UnackedEntry)>, i: int, j: int, now: u64, interval: u64, rtt: u64)
    requires
        i <= j,
    ensures
        due_before(s, i, now, interval, rtt) <= due_before(s, j, now, interval, rtt),
    decreases j - i,
{
    if i < j {
        lemma_due_before_monotone(s, i, j - 1, now, interval, rtt);
    }
}

/// One retransmission pass from `old` to `new` returning `out`: every selected frame is
/// marked resent at `now` and returned, in order; nothing else changes.
pub open spec fn retransmit_pass(
    old: &ReliableStream,
    new: &ReliableStream,
    out: Seq<StreamFrame>,
    stream_id: u32,
    now: u64,
    interval: u64,
    rtt: u64,
    max: usize,
) -> bool {
    &&& new.wf()
    &&& new.same_recv_side(old)
    &&& new.unacked@.len() == old.unacked@.len()
    &&& forall|i: int|
        0 <= i < old.unacked@.len() ==> #[trigger] new.unacked@[i] == (if selected_for_retransmit(
            old.unacked@,
            i,
            now,
            interval,
            rtt,
            max,
        ) {
            (old.unacked@[i].0, retransmitted(old.unacked@[i].1, now))
        } else {
            old.unacked@[i]
        })
    &&& out.len() == min_nat(due_before(old.unacked@, old.unacked@.len() as int, now, interval, rtt) as int, max as int)
    &&& forall|i: int|
        0 <= i < old.unacked@.len() && selected_for_retransmit(old.unacked@, i, now, interval, rtt, max) ==> {
            let f = #[trigger] out[due_before(old.unacked@, i, now, interval, rtt) as int];
            &&& f.stream_id == stream_id
            &&& f.frame_seq == old.unacked@[i].0
            &&& f.ack_seq == old.recv_next
            &&& f.payload@ == old.unacked@[i].1.payload@
        }
    &&& new.total_retransmits == sat_add_u64(old.total_retransmits, out.len() as int)
    &&& new.send_next == old.send_next
    &&& new.total_frames_sent == old.total_frames_sent
    &&& new.total_frames_acked == old.total_frames_acked
    &&& new.total_ack_latency_ms_sum == old.total_ack_latency_ms_sum
    &&& new.total_ack_latency_samples == old.total_ack_latency_samples
    &&& new.ack_latency_samples_ms@ == old.ack_latency_samples_ms@
    &&& new.highest_ack_seq_seen == old.highest_ack_seq_seen
}

/// The entry of frame `seq` in `new`, if it is unacked in `old`, has `now` as its last
/// send time.
pub open spec fn sent_at(old: &ReliableStream, new: &ReliableStream, seq: u64, now: u64) -> bool {
    forall|i: int|
        0 <= i < old.unacked@.len() && old.unacked@[i].0 == seq ==> #[trigger] new.unacked@[i] == (
        seq,
        UnackedEntry { last_sent_ms: now, ..old.unacked@[i].1 },
    )
}

impl ReliableStream {
    /// Both frame maps are in key order, and every buffered frame lies ahead of `recv_next`.
    pub open spec fn wf(&self) -> bool {
        &&& keys_increasing(self.unacked@)
        &&& keys_increasing(self.recv_buffer@)
        &&& keys_above(self.recv_buffer@, self.recv_next)
    }

    /// Fields of the receive side are those of `other`.
    pub open spec fn same_recv_side(&self, other: &ReliableStream) -> bool {
        &&& self.recv_next == other.recv_next
        &&& self.recv_buffer@ == other.recv_buffer@
    }

    /// `self` is `old` after a cumulative ACK of `ack` applied at time `now`.
    pub open spec fn ack_applied(old: &ReliableStream, new: &ReliableStream, ack: u64, now: u64) -> bool {
        let k = acked_count(old.unacked@, ack);
        let lat = latencies(old.unacked@.take(k as int), now);
        let room = if old.ack_latency_samples_ms@.len() >= ACK_LATENCY_SAMPLE_CAP {
            0
        } else {
            ACK_LATENCY_SAMPLE_CAP - old.ack_latency_samples_ms@.len()
        };
        &&& new.unacked@ == old.unacked@.skip(k as int)
        &&& new.highest_ack_seq_seen == (if ack > old.highest_ack_seq_seen {
            ack
        } else {
            old.highest_ack_seq_seen
        })
        &&& new.send_next == old.send_next
        &&& new.total_frames_sent == old.total_frames_sent
        &&& new.total_retransmits == old.total_retransmits
        &&& k == 0 ==> {
            &&& new.total_frames_acked == old.total_frames_acked
            &&& new.total_ack_latency_ms_sum == old.total_ack_latency_ms_sum
            &&& new.total_ack_latency_samples == old.total_ack_latency_samples
            &&& new.ack_latency_samples_ms@ == old.ack_latency_samples_ms@
        }
        &&& k > 0 ==> {
            &&& new.total_frames_acked == sat_add_u64(old.total_frames_acked, k as int)
            &&& new.total_ack_latency_ms_sum == sat_add_u128(
                old.total_ack_latency_ms_sum,
                sum_u64(lat) as int,
            )
            &&& new.total_ack_latency_samples == sat_add_u64(old.total_ack_latency_samples, k as int)
            &&& new.ack_latency_samples_ms@ == old.ack_latency_samples_ms@ + lat.take(
                min_nat(k as int, room),
            )
        }
    }

    /// The details reported for a cumulative ACK of `ack` applied to `old` at time `now`.
    pub open spec fn ack_details(old: &ReliableStream, ack: u64, now: u64) -> AckApplyDetails {
        let k = acked_count(old.unacked@, ack);
        let lat = latencies(old.unacked@.take(k as int), now);
        let first = old.unacked@[0].0;
        AckApplyDetails {
            disposition: if ack > old.highest_ack_seq_seen {
                AckDisposition::Advanced
            } else {
                AckDisposition::Stale
            },
            previous_ack_seq: old.highest_ack_seq_seen,
            ack_seq: ack,
            acked_frames: k as usize,
            avg_latency_ms: if k == 0 {
                None
            } else {
                Some((sum_u64(lat) / k) as u64)
            },
            inflight_before: old.unacked@.len() as usize,
            inflight_after: (old.unacked@.len() - k) as usize,
            first_acked_seq: if k == 0 {
                None
            } else {
                Some(first)
            },
            last_acked_seq_exclusive: if k == 0 {
                None
            } else {
                Some(ack)
            },
            gap_detected: k > 0 && sat_add_u64(first, k as int) != ack,
        }
    }

    pub fn new() -> (r: Self)
        ensures
            r.wf(),
            r.send_next == 0,
            r.recv_next == 0,
            r.recv_buffer@.len() == 0,
            r.unacked@.len() == 0,
            r.total_frames_sent == 0,
            r.total_frames_acked == 0,
            r.total_retransmits == 0,
            r.total_ack_latency_ms_sum == 0,
            r.total_ack_latency_samples == 0,
            r.ack_latency_samples_ms@.len() == 0,
            r.highest_ack_seq_seen == 0,
    {
        ReliableStream {
            send_next: 0,
            recv_next: 0,
            recv_buffer: Vec::new(),
            unacked: Vec::new(),
            total_frames_sent: 0,
            total_frames_acked: 0,
            total_retransmits: 0,
            total_ack_latency_ms_sum: 0,
            total_ack_latency_samples: 0,
            ack_latency_samples_ms: Vec::new(),
            highest_ack_seq_seen: 0,
        }
    }

    /// Build the next outgoing data frame for `payload` and keep it unacked.
    /// The frame carries the next send sequence number and piggy-backs the
    /// receive side's cumulative ACK. An empty payload marks end of stream.
    pub fn build_outgoing_frame(&mut self, stream_id: u32, payload: Vec<u8>) -> (f: StreamFrame)
        requires
            old(self).wf(),
        ensures
            final(self).wf(),
            f.stream_id == stream_id,
            f.frame_seq == old(self).send_next,
            f.ack_seq == old(self).recv_next,
            f.payload@ == payload@,
            final(self).send_next == (if old(self).send_next == u64::MAX {
                0
            } else {
                (old(self).send_next + 1) as u64
            }),
            final(self).total_frames_sent == sat_add_u64(old(self).total_frames_sent, 1),
            final(self).same_recv_side(old(self)),
            final(self).total_frames_acked == old(self).total_frames_acked,
            final(self).total_retransmits == old(self).total_retransmits,
            final(self).highest_ack_seq_seen == old(self).highest_ack_seq_seen,
            final(self).ack_latency_samples_ms@ == old(self).ack_latency_samples_ms@,
            final(self).total_ack_latency_ms_sum == old(self).total_ack_latency_ms_sum,
            final(self).total_ack_latency_samples == old(self).total_ack_latency_samples,
            exists|e: UnackedEntry|
                #![trigger sorted_insert(old(self).unacked@, old(self).send_next, e, true)]
                {
                    &&& e.payload@ == payload@
                    &&& e.is_end == (payload@.len() == 0)
                    &&& e.first_sent_ms == e.last_sent_ms
                    &&& e.retransmit_count == 0
                    &&& final(self).unacked@ == sorted_insert(old(self).unacked@, old(self).send_next, e, true)
                    &&& key_map(final(self).unacked@) == key_map(old(self).unacked@).insert(old(self).send_next, e)
                },
    {
        let now = now_ms();
        let seq = self.send_next;
        self.send_next = self.send_next.wrapping_add(1);
        let is_end = payload.len() == 0;
        self.total_frames_sent = self.total_frames_sent.saturating_add(1);
        let entry = UnackedEntry {
            payload: payload.clone(),
            is_end,
            first_sent_ms: now,
            last_sent_ms: now,
            retransmit_count: 0,
        };
        proof {
            lemma_key_map_sorted_insert(self.unacked@, seq, entry, true);
        }
        insert_sorted(&mut self.unacked, seq, entry, true);
        StreamFrame { stream_id, frame_seq: seq, ack_seq: self.recv_next, payload }
    }

    /// Apply a cumulative ACK (the peer's next expected sequence number) at time `now` (ms):
    /// every unacked frame below `ack_seq` is removed and its latency recorded: `now` minus its
    /// first send time, or minus its latest send time if it was retransmitted. An ACK of 0
    /// removes nothing.
    pub fn apply_ack_at(&mut self, ack_seq: u64, now: u64) -> (d: AckApplyDetails)
        requires
            old(self).wf(),
        ensures
            final(self).wf(),
            final(self).same_recv_side(old(self)),
            Self::ack_applied(old(self), final(self), ack_seq, now),
            d == Self::ack_details(old(self), ack_seq, now),
            d.acked_frames == acked_count(old(self).unacked@, ack_seq),
    {
        proof {
            crate::seqmap::lemma_count_below(self.unacked@, ack_seq);
        }
        let previous_ack_seq = self.highest_ack_seq_seen;
        let inflight_before = self.unacked.len();
        let first_key: u64 = if inflight_before > 0 { self.unacked[0].0 } else { 0 };
        let disposition = if ack_seq > previous_ack_seq {
            self.highest_ack_seq_seen = ack_seq;
            AckDisposition::Advanced
        } else {
            AckDisposition::Stale
        };
        if ack_seq == 0 {
            assert(old(self).unacked@.skip(0) =~= old(self).unacked@);
            return AckApplyDetails {
                disposition,
                previous_ack_seq,
                ack_seq,
                acked_frames: 0,
                avg_latency_ms: None,
                inflight_before,
                inflight_after: inflight_before,
                first_acked_seq: None,
                last_acked_seq_exclusive: None,
                gap_detected: false,
            };
        }
        let ghost old_unacked = self.unacked@;
        let mut acked: usize = 0;
        let mut sum_latency_ms: u128 = 0;
        let mut observed: Vec<u64> = Vec::new();
        while acked < self.unacked.len() && self.unacked[acked].0 < ack_seq
            invariant
                self.unacked@ == old_unacked,
                keys_increasing(old_unacked),
                acked <= old_unacked.len(),
                forall|j: int| 0 <= j < acked ==> old_unacked[j].0 < ack_seq,
                observed@ == latencies(old_unacked.take(acked as int), now),
                sum_latency_ms == sum_u64(observed@),
                sum_u64(observed@) <= acked * (u64::MAX as nat),
            decreases old_unacked.len() - acked,
        {
            let start = if self.unacked[acked].1.retransmit_count > 0 {
                self.unacked[acked].1.last_sent_ms
            } else {
                self.unacked[acked].1.first_sent_ms
            };
            let lat = now.saturating_sub(start);
            proof {
                crate::seqmap::lemma_sum_u64_push(observed@, lat);
                assert(latencies(old_unacked.take(acked as int + 1), now) =~= latencies(
                    old_unacked.take(acked as int),
                    now,
                ).push(lat));
                assert(sum_u64(observed@) + lat <= (acked + 1) * (u64::MAX as nat)) by (nonlinear_arith)
                    requires
                        sum_u64(observed@) <= acked * (u64::MAX as nat),
                        lat <= u64::MAX;
                assert((acked + 1) * (u64::MAX as nat) <= u128::MAX) by (nonlinear_arith)
                    requires
                        acked < usize::MAX;
            }
            sum_latency_ms = sum_latency_ms + lat as u128;
            observed.push(lat);
            acked = acked + 1;
        }
        proof {
            crate::seqmap::lemma_count_below_unique(old_unacked, ack_seq, acked as int);
        }
        let tail = self.unacked.split_off(acked);
        self.unacked = tail;
        assert(self.unacked@ =~= old_unacked.skip(acked as int));
        assert(keys_increasing(self.unacked@)) by {
            assert forall|a: int, b: int| 0 <= a < b < self.unacked@.len() implies self.unacked@[a].0
                < self.unacked@[b].0 by {
                assert(self.unacked@[a] == old_unacked[a + acked]);
                assert(self.unacked@[b] == old_unacked[b + acked]);
            }
        }
        let inflight_after = self.unacked.len();
        let avg_latency_ms = if acked == 0 {
            None
        } else {
            self.total_frames_acked = self.total_frames_acked.saturating_add(acked as u64);
            self.total_ack_latency_ms_sum = self.total_ack_latency_ms_sum.saturating_add(sum_latency_ms);
            self.total_ack_latency_samples = self.total_ack_latency_samples.saturating_add(acked as u64);
            let remaining_capacity = ACK_LATENCY_SAMPLE_CAP.saturating_sub(self.ack_latency_samples_ms.len());
            let take = if acked < remaining_capacity { acked } else { remaining_capacity };
            let ghost before = self.ack_latency_samples_ms@;
            let ghost snap = (self.send_next, self.recv_next, self.total_frames_sent, self.total_frames_acked,
                self.total_retransmits, self.total_ack_latency_ms_sum, self.total_ack_latency_samples,
                self.highest_ack_seq_seen);
            let ghost snap_unacked = self.unacked@;
            let mut j: usize = 0;
            while j < take
                invariant
                    snap == (self.send_next, self.recv_next, self.total_frames_sent, self.total_frames_acked,
                        self.total_retransmits, self.total_ack_latency_ms_sum, self.total_ack_latency_samples,
                        self.highest_ack_seq_seen),
                    self.unacked@ == snap_unacked,
                    self.recv_buffer@ == old(self).recv_buffer@,
                    j <= take,
                    take <= observed@.len(),
                    self.ack_latency_samples_ms@ == before + observed@.take(j as int),
                decreases take - j,
            {
                proof {
                    assert(observed@.take(j as int + 1) =~= observed@.take(j as int).push(observed@[j as int]));
                }
                self.ack_latency_samples_ms.push(observed[j]);
                j = j + 1;
            }
            proof {
                assert(sum_latency_ms / (acked as u128) <= u64::MAX) by (nonlinear_arith)
                    requires
                        sum_latency_ms <= acked * (u64::MAX as nat),
                        acked > 0;
            }
            Some((sum_latency_ms / (acked as u128)) as u64)
        };
        let gap_detected = acked > 0 && first_key.saturating_add(acked as u64) != ack_seq;
        AckApplyDetails {
            disposition,
            previous_ack_seq,
            ack_seq,
            acked_frames: acked,
            avg_latency_ms,
            inflight_before,
            inflight_after,
            first_acked_seq: if acked > 0 { Some(first_key) } else { None },
            last_acked_seq_exclusive: if acked > 0 { Some(ack_seq) } else { None },
            gap_detected,
        }
    }

    /// Apply a cumulative ACK now, by the system clock; see `apply_ack_at`.
    pub fn apply_ack_with_latency_details(&mut self, ack_seq: u64) -> (d: AckApplyDetails)
        requires
            old(self).wf(),
        ensures
            final(self).wf(),
            final(self).same_recv_side(old(self)),
            exists|now: u64|
                Self::ack_applied(old(self), final(self), ack_seq, now) && d == #[trigger] Self::ack_details(
                    old(self),
                    ack_seq,
                    now,
                ),
            d.acked_frames == acked_count(old(self).unacked@, ack_seq),
    {
        let now = now_ms();
        self.apply_ack_at(ack_seq, now)
    }

    /// Apply a cumulative ACK now; returns how many frames it removed.
    pub fn apply_ack(&mut self, ack_seq: u64) -> (n: usize)
        requires
            old(self).wf(),
        ensures
            final(self).wf(),
            final(self).same_recv_side(old(self)),
            n == acked_count(old(self).unacked@, ack_seq),
            exists|now: u64| #[trigger] Self::ack_applied(old(self), final(self), ack_seq, now),
    {
        self.apply_ack_with_latency_details(ack_seq).acked_frames
    }

    /// Apply a cumulative ACK now; returns how many frames it removed and their average latency.
    pub fn apply_ack_with_latency(&mut self, ack_seq: u64) -> (r: (usize, Option<u64>))
        requires
            old(self).wf(),
        ensures
            final(self).wf(),
            final(self).same_recv_side(old(self)),
            r.0 == acked_count(old(self).unacked@, ack_seq),
            exists|now: u64|
                Self::ack_applied(old(self), final(self), ack_seq, now) && r.1 == (#[trigger] Self::ack_details(
                    old(self),
                    ack_seq,
                    now,
                )).avg_latency_ms,
    {
        let details = self.apply_ack_with_latency_details(ack_seq);
        (details.acked_frames, details.avg_latency_ms)
    }

    /// Fields of the send side are those of `other`.
    pub open spec fn same_send_side(&self, other: &ReliableStream) -> bool {
        &&& self.send_next == other.send_next
        &&& self.unacked@ == other.unacked@
        &&& self.total_frames_sent == other.total_frames_sent
        &&& self.total_frames_acked == other.total_frames_acked
        &&& self.total_retransmits == other.total_retransmits
        &&& self.total_ack_latency_ms_sum == other.total_ack_latency_ms_sum
        &&& self.total_ack_latency_samples == other.total_ack_latency_samples
        &&& self.ack_latency_samples_ms@ == other.ack_latency_samples_ms@
        &&& self.highest_ack_seq_seen == other.highest_ack_seq_seen
    }

    /// The receive side of `new` is that of `old` after frame `(seq, payload)` arrived,
    /// and `delivered`/`eos` are what the arrival hands to the application.
    pub open spec fn received(
        old: &ReliableStream,
        new: &ReliableStream,
        seq: u64,
        payload: Seq<u8>,
        delivered: Seq<Seq<u8>>,
        eos: bool,
    ) -> bool {
        if seq == old.recv_next {
            let d = drain_in_order(old.recv_buffer@, seq_after(old.recv_next));
            &&& delivered == (if payload.len() > 0 {
                seq![payload] + d.0
            } else {
                d.0
            })
            &&& new.recv_next == d.1
            &&& eos == (payload.len() == 0 || d.2)
            &&& new.recv_buffer@ == old.recv_buffer@.skip(d.3 as int)
        } else if seq > old.recv_next {
            &&& delivered.len() == 0
            &&& !eos
            &&& new.recv_next == old.recv_next
            &&& exists|p: Vec<u8>|
                p@ == payload && new.recv_buffer@ == #[trigger] sorted_insert(
                    old.recv_buffer@,
                    seq,
                    p,
                    false,
                )
        } else {
            &&& delivered.len() == 0
            &&& !eos
            &&& new.same_recv_side(old)
        }
    }

    /// Deliver an incoming frame to the receive side: an in-order frame is handed over
    /// together with every buffered frame that follows it without a gap; a frame ahead
    /// of the expected one is buffered (a copy already buffered is kept); an old frame
    /// is ignored. An empty payload marks end of stream and is not itself delivered.
    fn receive_frame(&mut self, seq: u64, payload: &Vec<u8>) -> (r: (Vec<Vec<u8>>, bool))
        requires
            old(self).wf(),
        ensures
            final(self).wf(),
            final(self).same_send_side(old(self)),
            Self::received(old(self), final(self), seq, payload@, payload_views(r.0@), r.1),
    {
        let mut deliver: Vec<Vec<u8>> = Vec::new();
        let mut end_of_stream = false;
        if seq == self.recv_next {
            if payload.len() > 0 {
                deliver.push(payload.clone());
            } else {
                end_of_stream = true;
            }
            let ghost buf0 = self.recv_buffer@;
            let ghost next0 = seq_after(self.recv_next);
            let ghost d0 = drain_in_order(buf0, next0);
            let ghost pre = payload_views(deliver@);
            let ghost eos0 = end_of_stream;
            self.recv_next = self.recv_next.wrapping_add(1);
            proof {
                assert(payload_views(deliver@) =~= (if payload@.len() > 0 { seq![payload@] } else { Seq::empty() }));
            }
            let ghost mut taken: nat = 0;
            while self.recv_buffer.len() > 0 && self.recv_buffer[0].0 == self.recv_next
                invariant
                    self.same_send_side(old(self)),
                    keys_increasing(self.recv_buffer@),
                    forall|i: int| 0 <= i < self.recv_buffer@.len() ==> self.recv_buffer@[i].0 >= self.recv_next,
                    self.recv_buffer@ == buf0.skip(taken as int),
                    taken <= buf0.len(),
                    ({
                        let d = drain_in_order(self.recv_buffer@, self.recv_next);
                        &&& payload_views(deliver@) + d.0 == pre + d0.0
                        &&& d.1 == d0.1
                        &&& (end_of_stream || d.2) == (eos0 || d0.2)
                        &&& taken + d.3 == d0.3
                    }),
                decreases self.recv_buffer@.len(),
            {
                let ghost cur = self.recv_buffer@;
                let ghost nx = self.recv_next;
                let (_, buf) = self.recv_buffer.remove(0);
                proof {
                    assert(self.recv_buffer@ =~= cur.drop_first());
                    assert(buf0.skip(taken as int + 1) =~= cur.drop_first());
                    let d = drain_in_order(cur, nx);
                    let r = drain_in_order(cur.drop_first(), seq_after(nx));
                    assert(payload_views(deliver@.push(buf)) =~= payload_views(deliver@).push(buf@));
                    assert(seq![buf@] + r.0 == d.0);
                    assert(payload_views(deliver@).push(buf@) + r.0 =~= payload_views(deliver@) + d.0);
                    assert forall|i: int| 0 <= i < cur.drop_first().len() implies cur.drop_first()[i].0
                        > nx by {
                        assert(cur.drop_first()[i] == cur[i + 1]);
                    }
                }
                if buf.len() == 0 {
                    end_of_stream = true;
                }
                deliver.push(buf);
                self.recv_next = self.recv_next.wrapping_add(1);
                proof {
                    taken = taken + 1;
                }
            }
            proof {
                let d = drain_in_order(self.recv_buffer@, self.recv_next);
                assert(d.0 =~= Seq::<Seq<u8>>::empty());
                assert(payload_views(deliver@) =~= pre + d0.0);
                if self.recv_buffer@.len() > 0 {
                    assert forall|i: int| 0 <= i < self.recv_buffer@.len() implies self.recv_buffer@[i].0
                        > self.recv_next by {
                        if i > 0 {
                            assert(self.recv_buffer@[0].0 < self.recv_buffer@[i].0);
                        }
                    }
                }
            }
        } else if seq > self.recv_next {
            let p = payload.clone();
            proof {
                crate::seqmap::lemma_sorted_insert(self.recv_buffer@, seq, p, false);
            }
            let ghost before = self.recv_buffer@;
            insert_sorted(&mut self.recv_buffer, seq, p, false);
            proof {
                let i = count_below(before, seq) as int;
                crate::seqmap::lemma_count_below(before, seq);
                assert forall|j: int| 0 <= j < self.recv_buffer@.len() implies self.recv_buffer@[j].0
                    > self.recv_next by {
                    if !(i < before.len() && before[i].0 == seq) {
                        if j < i {
                            assert(self.recv_buffer@[j] == before[j]);
                        } else if j > i {
                            assert(self.recv_buffer@[j] == before[j - 1]);
                        }
                    }
                }
            }
        }
        proof {
            assert(payload_views(deliver@).len() == deliver@.len());
        }
        (deliver, end_of_stream)
    }

    /// Process an incoming frame: apply its piggy-backed ACK to the send side, then
    /// deliver it to the receive side. Returns the payloads that became deliverable in
    /// order, the cumulative ACK to send back, and whether end of stream was reached.
    pub fn process_incoming(&mut self, frame: &StreamFrame) -> (r: (Vec<Vec<u8>>, u64, bool))
        requires
            old(self).wf(),
        ensures
            final(self).wf(),
            exists|now: u64| #[trigger] Self::ack_applied(old(self), final(self), frame.ack_seq, now),
            Self::received(old(self), final(self), frame.frame_seq, frame.payload@, payload_views(r.0@), r.2),
            r.1 == final(self).recv_next,
    {
        let _ = self.apply_ack(frame.ack_seq);
        let ghost mid = *self;
        let ghost now = choose|now: u64| #[trigger] Self::ack_applied(old(self), &mid, frame.ack_seq, now);
        let (deliver, end_of_stream) = self.receive_frame(frame.frame_seq, &frame.payload);
        assert(Self::ack_applied(old(self), self, frame.ack_seq, now));
        (deliver, self.recv_next, end_of_stream)
    }

    /// Number of unacknowledged frames in flight.
    pub fn inflight(&self) -> (n: usize)
        ensures
            n == self.unacked@.len(),
    {
        self.unacked.len()
    }

    /// Number of out-of-order frames awaiting reassembly.
    pub fn recv_buffer_len(&self) -> (n: usize)
        ensures
            n == self.recv_buffer@.len(),
    {
        self.recv_buffer.len()
    }

    /// Average ACK latency over all acknowledged frames.
    pub open spec fn avg_latency_spec(&self) -> Option<u64> {
        if self.total_ack_latency_samples == 0 {
            None
        } else {
            Some((self.total_ack_latency_ms_sum / (self.total_ack_latency_samples as u128)) as u64)
        }
    }

    /// Average ACK latency in milliseconds over all acknowledged frames.
    pub fn ack_latency_avg_ms(&self) -> (r: Option<u64>)
        ensures
            r == self.avg_latency_spec(),
    {
        if self.total_ack_latency_samples == 0 {
            return None;
        }
        Some((self.total_ack_latency_ms_sum / (self.total_ack_latency_samples as u128)) as u64)
    }

    /// Average, minimum, median, 95th percentile and maximum of the kept ACK latency samples.
    pub fn ack_latency_summary(&self) -> (r: AckLatencySummary)
        ensures
            r.avg_ms == self.avg_latency_spec(),
            self.ack_latency_samples_ms@.len() == 0 ==> r == (AckLatencySummary {
                avg_ms: self.avg_latency_spec(),
                min_ms: None,
                p50_ms: None,
                p95_ms: None,
                max_ms: None,
            }),
            self.ack_latency_samples_ms@.len() > 0 ==> {
                let t = sorted_samples(self.ack_latency_samples_ms@);
                let n = self.ack_latency_samples_ms@.len();
                &&& t.len() == n
                &&& r.min_ms == Some(t[0])
                &&& r.p50_ms == Some(t[quantile_index(n, 50)])
                &&& r.p95_ms == Some(t[quantile_index(n, 95)])
                &&& r.max_ms == Some(t[n - 1])
            },
            self.ack_latency_samples_ms@.len() > 0 ==> (r.min_ms is Some && r.p50_ms is Some && r.p95_ms is Some
                && r.max_ms is Some && r.min_ms->0 <= r.p50_ms->0 <= r.p95_ms->0 <= r.max_ms->0),
    {
        let avg_ms = self.ack_latency_avg_ms();
        if self.ack_latency_samples_ms.len() == 0 {
            return AckLatencySummary { avg_ms, min_ms: None, p50_ms: None, p95_ms: None, max_ms: None };
        }
        let samples = sorted_copy(&self.ack_latency_samples_ms);
        proof {
            lemma_sorted_samples_unique(self.ack_latency_samples_ms@, samples@);
        }
        let n = samples.len();
        let last = n - 1;
        let i50 = (((last as u128) * 50 + 50) / 100) as usize;
        let i95 = (((last as u128) * 95 + 50) / 100) as usize;
        assert(i50 <= last && i95 <= last && i50 <= i95) by (nonlinear_arith)
            requires
                i50 == ((last as int) * 50 + 50) / 100,
                i95 == ((last as int) * 95 + 50) / 100;
        assert(samples@[0] <= samples@[i50 as int] <= samples@[i95 as int] <= samples@[last as int]);
        AckLatencySummary {
            avg_ms,
            min_ms: Some(samples[0]),
            p50_ms: Some(samples[i50]),
            p95_ms: Some(samples[i95]),
            max_ms: Some(samples[last]),
        }
    }

    /// (frames sent, frames acknowledged, retransmissions).
    pub fn counters_snapshot(&self) -> (r: (u64, u64, u64))
        ensures
            r == (self.total_frames_sent, self.total_frames_acked, self.total_retransmits),
    {
        (self.total_frames_sent, self.total_frames_acked, self.total_retransmits)
    }

    /// Whether a new frame fits in a window of `window_frames` frames in flight.
    pub fn can_send(&self, window_frames: usize) -> (r: bool)
        ensures
            r == (self.unacked@.len() < window_frames),
    {
        self.inflight() < window_frames
    }

    /// Record that frame `seq` was just (re)sent, by the system clock: its entry, if it
    /// is unacked, gets the clock reading as its last send time.
    pub fn mark_sent(&mut self, seq: u64)
        requires
            old(self).wf(),
        ensures
            final(self).wf(),
            final(self).same_recv_side(old(self)),
            final(self).unacked@.len() == old(self).unacked@.len(),
            forall|i: int|
                0 <= i < old(self).unacked@.len() && old(self).unacked@[i].0 != seq ==> final(self).unacked@[i]
                    == old(self).unacked@[i],
            forall|i: int|
                0 <= i < old(self).unacked@.len() && old(self).unacked@[i].0 == seq ==> #[trigger] final(self).unacked@[i]
                    == (seq, UnackedEntry { last_sent_ms: final(self).unacked@[i].1.last_sent_ms, ..old(self).unacked@[i].1 }),
            final(self).send_next == old(self).send_next,
            final(self).total_frames_sent == old(self).total_frames_sent,
            final(self).total_frames_acked == old(self).total_frames_acked,
            final(self).total_retransmits == old(self).total_retransmits,
            final(self).total_ack_latency_ms_sum == old(self).total_ack_latency_ms_sum,
            final(self).total_ack_latency_samples == old(self).total_ack_latency_samples,
            final(self).ack_latency_samples_ms@ == old(self).ack_latency_samples_ms@,
            final(self).highest_ack_seq_seen == old(self).highest_ack_seq_seen,
            exists|reading: Option<(u64, u32)>| #[trigger] sent_at(old(self), final(self), seq, reading_ms(reading)),
    {
        let now = now_ms();
        self.mark_sent_at(seq, now);
        proof {
            let reading = choose|reading: Option<(u64, u32)>| now == reading_ms(reading);
            assert(sent_at(old(self), self, seq, reading_ms(reading)));
        }
    }

    /// Record that frame `seq` was (re)sent at time `now` (ms): its entry, if it is
    /// unacked, gets `now` as its last send time and changes in nothing else.
    pub fn mark_sent_at(&mut self, seq: u64, now: u64)
        requires
            old(self).wf(),
        ensures
            final(self).wf(),
            final(self).same_recv_side(old(self)),
            final(self).unacked@.len() == old(self).unacked@.len(),
            forall|i: int|
                0 <= i < old(self).unacked@.len() && old(self).unacked@[i].0 != seq ==> final(self).unacked@[i]
                    == old(self).unacked@[i],
            forall|i: int|
                0 <= i < old(self).unacked@.len() && old(self).unacked@[i].0 == seq ==> #[trigger] final(self).unacked@[i]
                    == (seq, UnackedEntry { last_sent_ms: now, ..old(self).unacked@[i].1 }),
            final(self).send_next == old(self).send_next,
            final(self).total_frames_sent == old(self).total_frames_sent,
            final(self).total_frames_acked == old(self).total_frames_acked,
            final(self).total_retransmits == old(self).total_retransmits,
            final(self).total_ack_latency_ms_sum == old(self).total_ack_latency_ms_sum,
            final(self).total_ack_latency_samples == old(self).total_ack_latency_samples,
            final(self).ack_latency_samples_ms@ == old(self).ack_latency_samples_ms@,
            final(self).highest_ack_seq_seen == old(self).highest_ack_seq_seen,
    {
        let i = crate::seqmap::lower_bound(&self.unacked, seq);
        proof {
            crate::seqmap::lemma_count_below(self.unacked@, seq);
        }
        if i < self.unacked.len() && self.unacked[i].0 == seq {
            let ghost before = self.unacked@;
            let (k, mut e) = self.unacked.remove(i);
            e.last_sent_ms = now;
            self.unacked.insert(i, (k, e));
            assert(self.unacked@ =~= before.update(i as int, (seq, UnackedEntry { last_sent_ms: now, ..before[i as int].1 })));
            assert forall|j: int| 0 <= j < before.len() && before[j].0 == seq implies j == i by {
                if j < i {
                    assert(before[j].0 < before[i as int].0);
                } else if j > i {
                    assert(before[i as int].0 < before[j].0);
                }
            }
        } else {
            assert forall|j: int| 0 <= j < self.unacked@.len() implies self.unacked@[j].0 != seq by {
                if j < i {
                } else if j > i {
                    assert(self.unacked@[i as int].0 < self.unacked@[j].0);
                }
            }
        }
    }

    /// Pick, oldest first, at most `max_frames` unacked frames whose wait (see
    /// `resend_wait`) has passed at time `now` (ms), mark them resent at `now`, and return
    /// them as frames.
    fn retransmit_frames(
        &mut self,
        stream_id: u32,
        now: u64,
        interval_ms: u64,
        rtt_ms: u64,
        max_frames: usize,
    ) -> (out: Vec<StreamFrame>)
        requires
            old(self).wf(),
        ensures
            retransmit_pass(old(self), final(self), out@, stream_id, now, interval_ms, rtt_ms, max_frames),
    {
        let ghost s0 = self.unacked@;
        let mut out: Vec<StreamFrame> = Vec::new();
        let mut i: usize = 0;
        let n = self.unacked.len();
        while i < n && out.len() < max_frames
            invariant
                n == s0.len(),
                i <= n,
                self.unacked@.len() == n,
                self.same_recv_side(old(self)),
                self.send_next == old(self).send_next,
                self.total_frames_sent == old(self).total_frames_sent,
                self.total_frames_acked == old(self).total_frames_acked,
                self.total_ack_latency_ms_sum == old(self).total_ack_latency_ms_sum,
                self.total_ack_latency_samples == old(self).total_ack_latency_samples,
                self.ack_latency_samples_ms@ == old(self).ack_latency_samples_ms@,
                self.highest_ack_seq_seen == old(self).highest_ack_seq_seen,
                keys_increasing(s0),
                s0 == old(self).unacked@,
                forall|j: int|
                    0 <= j < i ==> #[trigger] self.unacked@[j] == (if selected_for_retransmit(
                        s0,
                        j,
                        now,
                        interval_ms,
                        rtt_ms,
                        max_frames,
                    ) {
                        (s0[j].0, retransmitted(s0[j].1, now))
                    } else {
                        s0[j]
                    }),
                forall|j: int| i <= j < n ==> #[trigger] self.unacked@[j] == s0[j],
                out@.len() == min_nat(due_before(s0, i as int, now, interval_ms, rtt_ms) as int, max_frames as int),
                forall|j: int|
                    0 <= j < i && selected_for_retransmit(s0, j, now, interval_ms, rtt_ms, max_frames) ==> {
                        let f = #[trigger] out@[due_before(s0, j, now, interval_ms, rtt_ms) as int];
                        &&& f.stream_id == stream_id
                        &&& f.frame_seq == s0[j].0
                        &&& f.ack_seq == old(self).recv_next
                        &&& f.payload@ == s0[j].1.payload@
                    },
                self.total_retransmits == sat_add_u64(old(self).total_retransmits, out@.len() as int),
            decreases n - i,
        {
            let last_sent = self.unacked[i].1.last_sent_ms;
            let wait = if rtt_ms == 0 {
                interval_ms
            } else {
                retransmit_timeout_for_rtt(rtt_ms, self.unacked[i].1.retransmit_count)
            };
            if now.saturating_sub(last_sent) < wait {
                i = i + 1;
                continue;
            }
            let ghost before = self.unacked@;
            let ghost out_before = out@;
            proof {
                assert forall|j: int| 0 <= j < i && selected_for_retransmit(s0, j, now, interval_ms, rtt_ms, max_frames)
                    implies due_before(s0, j, now, interval_ms, rtt_ms) < out_before.len() by {
                    lemma_due_before_monotone(s0, j + 1, i as int, now, interval_ms, rtt_ms);
                }
            }
            let (k, mut e) = self.unacked.remove(i);
            e.last_sent_ms = now;
            e.retransmit_count = e.retransmit_count.saturating_add(1);
            self.total_retransmits = self.total_retransmits.saturating_add(1);
            let frame = StreamFrame {
                stream_id,
                frame_seq: k,
                ack_seq: self.recv_next,
                payload: e.payload.clone(),
            };
            self.unacked.insert(i, (k, e));
            assert(self.unacked@ =~= before.update(i as int, (s0[i as int].0, retransmitted(s0[i as int].1, now))));
            out.push(frame);
            proof {
                assert forall|j: int| 0 <= j < i && selected_for_retransmit(s0, j, now, interval_ms, rtt_ms, max_frames)
                    implies out@[due_before(s0, j, now, interval_ms, rtt_ms) as int] == out_before[due_before(
                    s0,
                    j,
                    now,
                    interval_ms,
                    rtt_ms,
                ) as int] by {}
            }
            i = i + 1;
        }
        proof {
            assert forall|j: int| 0 <= j < n implies #[trigger] self.unacked@[j] == (if selected_for_retransmit(
                s0,
                j,
                now,
                interval_ms,
                rtt_ms,
                max_frames,
            ) {
                (s0[j].0, retransmitted(s0[j].1, now))
            } else {
                s0[j]
            }) by {
                if j >= i {
                    lemma_due_before_monotone(s0, i as int, j, now, interval_ms, rtt_ms);
                }
            }
            if i < n {
                lemma_due_before_monotone(s0, i as int, n as int, now, interval_ms, rtt_ms);
            }
            assert forall|j: int| 0 <= j < n && selected_for_retransmit(s0, j, now, interval_ms, rtt_ms, max_frames)
                implies j < i by {
                if j >= i {
                    lemma_due_before_monotone(s0, i as int, j, now, interval_ms, rtt_ms);
                }
            }
            assert(keys_increasing(self.unacked@)) by {
                assert forall|a: int, b: int| 0 <= a < b < self.unacked@.len() implies self.unacked@[a].0
                    < self.unacked@[b].0 by {
                    assert(self.unacked@[a].0 == s0[a].0);
                    assert(self.unacked@[b].0 == s0[b].0);
                }
            }
        }
        out
    }

    /// Pick, oldest first, at most `max_frames` unacked frames that have been idle for at least
    /// `interval_ms` at time `now` (ms), mark them resent at `now`, and return them as frames.
    pub fn frames_for_retransmit(
        &mut self,
        stream_id: u32,
        now: u64,
        interval_ms: u64,
        max_frames: usize,
    ) -> (out: Vec<StreamFrame>)
        requires
            old(self).wf(),
        ensures
            retransmit_pass(old(self), final(self), out@, stream_id, now, interval_ms, 0, max_frames),
    {
        self.retransmit_frames(stream_id, now, interval_ms, 0, max_frames)
    }

    /// Pick, oldest first, at most `max_frames` unacked frames whose backoff timeout for a
    /// round trip of `rtt_ms` and their retransmission count has passed at `now` (ms), mark
    /// them resent at `now`, and return them as frames.
    pub fn frames_for_backoff_retransmit(
        &mut self,
        stream_id: u32,
        now: u64,
        rtt_ms: u64,
        max_frames: usize,
    ) -> (out: Vec<StreamFrame>)
        requires
            old(self).wf(),
            rtt_ms > 0,
        ensures
            retransmit_pass(old(self), final(self), out@, stream_id, now, 0, rtt_ms, max_frames),
    {
        self.retransmit_frames(stream_id, now, 0, rtt_ms, max_frames)
    }

    /// All unacked frames as stream frames, in sequence order.
    pub fn unacked_frames(&self, stream_id: u32) -> (out: Vec<StreamFrame>)
        ensures
            out@.len() == self.unacked@.len(),
            forall|i: int|
                0 <= i < self.unacked@.len() ==> {
                    let f = #[trigger] out@[i];
                    &&& f.stream_id == stream_id
                    &&& f.frame_seq == self.unacked@[i].0
                    &&& f.ack_seq == self.recv_next
                    &&& f.payload@ == self.unacked@[i].1.payload@
                },
    {
        let mut out: Vec<StreamFrame> = Vec::new();
        let mut i: usize = 0;
        while i < self.unacked.len()
            invariant
                i <= self.unacked@.len(),
                out@.len() == i,
                forall|j: int|
                    0 <= j < i ==> {
                        let f = #[trigger] out@[j];
                        &&& f.stream_id == stream_id
                        &&& f.frame_seq == self.unacked@[j].0
                        &&& f.ack_seq == self.recv_next
                        &&& f.payload@ == self.unacked@[j].1.payload@
                    },
            decreases self.unacked@.len() - i,
        {
            out.push(
                StreamFrame {
                    stream_id,
                    frame_seq: self.unacked[i].0,
                    ack_seq: self.recv_next,
                    payload: self.unacked[i].1.payload.clone(),
                },
            );
            i = i + 1;
        }
        out
    }
}


/// The payloads that are not empty, in order: what a reader of the stream sees.
pub open spec fn nonempty_payloads(s: Seq<Seq<u8>>) -> Seq<Seq<u8>>
    decreases s.len(),
{
    if s.len() == 0 {
        Seq::empty()
    } else {
        nonempty_payloads(s.drop_last()) + if s.last().len() > 0 {
            seq![s.last()]
        } else {
            Seq::empty()
        }
    }
}

/// The receive side agrees with the payloads `sent` (indexed by sequence number): the
/// next expected number is within them and every buffered frame carries the payload
/// sent under its number.
pub open spec fn receive_side_matches(rs: ReliableStream, sent: Seq<Seq<u8>>) -> bool {
    &&& rs.wf()
    &&& rs.recv_next <= sent.len()
    &&& forall|i: int|
        0 <= i < rs.recv_buffer@.len() ==> (#[trigger] rs.recv_buffer@[i]).0 < sent.len()
            && rs.recv_buffer@[i].1@ == sent[rs.recv_buffer@[i].0 as int]
}

proof fn lemma_drain_matches(buf: Seq<(u64, Vec<u8>)>, next: u64, sent: Seq<Seq<u8>>)
    requires
        sent.len() < u64::MAX,
        next <= sent.len(),
        forall|i: int| 0 <= i < buf.len() ==> (#[trigger] buf[i]).0 < sent.len() && buf[i].1@ == sent[buf[i].0 as int],
    ensures
        ({
            let d = drain_in_order(buf, next);
            &&& next <= d.1 <= sent.len()
            &&& d.0 == sent.subrange(next as int, d.1 as int)
            &&& d.3 <= buf.len()
        }),
    decreases buf.len(),
{
    if buf.len() > 0 && buf[0].0 == next {
        let t = buf.drop_first();
        assert forall|i: int| 0 <= i < t.len() implies (#[trigger] t[i]).0 < sent.len() && t[i].1@ == sent[t[i].0 as int] by {
            assert(t[i] == buf[i + 1]);
        }
        assert(buf[0].0 < sent.len());
        lemma_drain_matches(t, seq_after(next), sent);
        let r = drain_in_order(t, seq_after(next));
        assert(seq![buf[0].1@] + r.0 =~= sent.subrange(next as int, r.1 as int));
    } else {
        assert(sent.subrange(next as int, next as int) =~= Seq::<Seq<u8>>::empty());
    }
}

proof fn lemma_nonempty_add(a: Seq<Seq<u8>>, b: Seq<Seq<u8>>)
    ensures
        nonempty_payloads(a + b) == nonempty_payloads(a) + nonempty_payloads(b),
    decreases b.len(),
{
    if b.len() == 0 {
        assert(a + b =~= a);
        assert(nonempty_payloads(a) + nonempty_payloads(b) =~= nonempty_payloads(a));
    } else {
        assert((a + b).drop_last() =~= a + b.drop_last());
        assert((a + b).last() == b.last());
        lemma_nonempty_add(a, b.drop_last());
        assert(nonempty_payloads(a + b) =~= nonempty_payloads(a) + nonempty_payloads(b));
    }
}

proof fn lemma_receive_in_order_frame(
    old: ReliableStream,
    new: ReliableStream,
    sent: Seq<Seq<u8>>,
    delivered: Seq<Seq<u8>>,
    eos: bool,
)
    requires
        sent.len() < u64::MAX,
        old.recv_next < sent.len(),
        receive_side_matches(old, sent),
        new.wf(),
        ReliableStream::received(&old, &new, old.recv_next, sent[old.recv_next as int], delivered, eos),
    ensures
        receive_side_matches(new, sent),
        old.recv_next <= new.recv_next,
        nonempty_payloads(delivered) == nonempty_payloads(sent.subrange(old.recv_next as int, new.recv_next as int)),
{
    let payload = sent[old.recv_next as int];
    let buf = old.recv_buffer@;
    assert forall|i: int| 0 <= i < buf.len() implies (#[trigger] buf[i]).0 < sent.len() && buf[i].1@ == sent[buf[i].0 as int] by {
        assert(buf[i] == old.recv_buffer@[i]);
    }
    lemma_drain_matches(buf, seq_after(old.recv_next), sent);
    let d = drain_in_order(buf, seq_after(old.recv_next));
    assert(seq_after(old.recv_next) == old.recv_next + 1);
    assert(new.recv_buffer@ == buf.skip(d.3 as int));
    assert forall|i: int| 0 <= i < new.recv_buffer@.len() implies (#[trigger] new.recv_buffer@[i]).0 < sent.len()
        && new.recv_buffer@[i].1@ == sent[new.recv_buffer@[i].0 as int] by {
        assert(new.recv_buffer@[i] == buf[i + d.3]);
    }
    let first: Seq<Seq<u8>> = if payload.len() > 0 {
        seq![payload]
    } else {
        Seq::empty()
    };
    assert(delivered == first + d.0);
    lemma_nonempty_add(first, d.0);
    lemma_nonempty_add(seq![payload], d.0);
    assert(sent.subrange(old.recv_next as int, d.1 as int) =~= seq![payload] + d.0);
    assert(seq![payload].drop_last() =~= Seq::<Seq<u8>>::empty());
    assert(nonempty_payloads(Seq::<Seq<u8>>::empty()) == Seq::<Seq<u8>>::empty());
    assert(nonempty_payloads(first) == nonempty_payloads(seq![payload]));
}

proof fn lemma_receive_ahead_frame(
    old: ReliableStream,
    new: ReliableStream,
    sent: Seq<Seq<u8>>,
    seq: u64,
    delivered: Seq<Seq<u8>>,
    eos: bool,
)
    requires
        seq < sent.len(),
        seq > old.recv_next,
        receive_side_matches(old, sent),
        new.wf(),
        ReliableStream::received(&old, &new, seq, sent[seq as int], delivered, eos),
    ensures
        receive_side_matches(new, sent),
        new.recv_next == old.recv_next,
        delivered.len() == 0,
{
    let buf = old.recv_buffer@;
    let p = choose|p: Vec<u8>| p@ == sent[seq as int] && new.recv_buffer@ == #[trigger] sorted_insert(buf, seq, p, false);
    lemma_sorted_insert(buf, seq, p, false);
    let i = count_below(buf, seq) as int;
    crate::seqmap::lemma_count_below(buf, seq);
    assert forall|j: int| 0 <= j < new.recv_buffer@.len() implies (#[trigger] new.recv_buffer@[j]).0 < sent.len()
        && new.recv_buffer@[j].1@ == sent[new.recv_buffer@[j].0 as int] by {
        if !(i < buf.len() && buf[i].0 == seq) {
            if j < i {
                assert(new.recv_buffer@[j] == buf[j]);
            } else if j > i {
                assert(new.recv_buffer@[j] == buf[j - 1]);
            }
        }
    }
}

/// Whatever the order in which a stream's frames arrive, the receiver hands over the
/// sent payloads in sequence order, each once: one received frame that carries what was
/// sent under its number keeps the receive side in agreement with what was sent, and
/// the payloads it hands over (empty ones aside) are exactly those sent under the
/// numbers that its expected number moved past.
pub proof fn lemma_receive_hands_over_in_order(
    old: ReliableStream,
    new: ReliableStream,
    sent: Seq<Seq<u8>>,
    seq: u64,
    delivered: Seq<Seq<u8>>,
    eos: bool,
)
    requires
        sent.len() < u64::MAX,
        seq < sent.len(),
        receive_side_matches(old, sent),
        new.wf(),
        ReliableStream::received(&old, &new, seq, sent[seq as int], delivered, eos),
    ensures
        receive_side_matches(new, sent),
        old.recv_next <= new.recv_next,
        nonempty_payloads(delivered) == nonempty_payloads(sent.subrange(old.recv_next as int, new.recv_next as int)),
{
    if seq == old.recv_next {
        lemma_receive_in_order_frame(old, new, sent, delivered, eos);
    } else if seq > old.recv_next {
        lemma_receive_ahead_frame(old, new, sent, seq, delivered, eos);
        assert(delivered =~= Seq::<Seq<u8>>::empty());
        assert(sent.subrange(old.recv_next as int, new.recv_next as int) =~= Seq::<Seq<u8>>::empty());
    } else {
        assert(delivered =~= Seq::<Seq<u8>>::empty());
        assert(sent.subrange(old.recv_next as int, new.recv_next as int) =~= Seq::<Seq<u8>>::empty());
    }
}

/// The batches handed over, one after the other.
pub open spec fn all_handed_over(batches: Seq<Seq<Seq<u8>>>) -> Seq<Seq<u8>>
    decreases batches.len(),
{
    if batches.len() == 0 {
        Seq::empty()
    } else {
        all_handed_over(batches.drop_last()) + batches.last()
    }
}

/// Over any run of received frames, in any order, with repeats: when each carries what
/// was sent under its number, everything handed over (empty payloads aside) is the sent
/// payloads in sequence order, from the first expected number to the last, each once.
pub proof fn lemma_receiving_run_hands_over_in_order(
    states: Seq<ReliableStream>,
    seqs: Seq<u64>,
    batches: Seq<Seq<Seq<u8>>>,
    eos: Seq<bool>,
    sent: Seq<Seq<u8>>,
)
    requires
        sent.len() < u64::MAX,
        states.len() == seqs.len() + 1,
        batches.len() == seqs.len(),
        eos.len() == seqs.len(),
        receive_side_matches(states[0], sent),
        forall|i: int| 0 <= i < seqs.len() ==> #[trigger] seqs[i] < sent.len(),
        forall|i: int| 0 < i < states.len() ==> (#[trigger] states[i]).wf(),
        forall|i: int|
            0 <= i < seqs.len() ==> ReliableStream::received(
                &states[i],
                &states[i + 1],
                seqs[i],
                sent[seqs[i] as int],
                #[trigger] batches[i],
                eos[i],
            ),
    ensures
        receive_side_matches(states.last(), sent),
        states[0].recv_next <= states.last().recv_next,
        nonempty_payloads(all_handed_over(batches)) == nonempty_payloads(
            sent.subrange(states[0].recv_next as int, states.last().recv_next as int),
        ),
    decreases seqs.len(),
{
    let m = seqs.len() as int;
    if m == 0 {
        assert(sent.subrange(states[0].recv_next as int, states[0].recv_next as int) =~= Seq::<Seq<u8>>::empty());
    } else {
        let st = states.drop_last();
        let sq = seqs.drop_last();
        let bt = batches.drop_last();
        let eo = eos.drop_last();
        assert forall|i: int| 0 <= i < sq.len() implies ReliableStream::received(
            &st[i],
            &st[i + 1],
            sq[i],
            sent[sq[i] as int],
            #[trigger] bt[i],
            eo[i],
        ) by {
            assert(ReliableStream::received(&states[i], &states[i + 1], seqs[i], sent[seqs[i] as int], batches[i], eos[i]));
        }
        assert forall|i: int| 0 <= i < sq.len() implies #[trigger] sq[i] < sent.len() by {
            assert(seqs[i] < sent.len());
        }
        assert forall|i: int| 0 < i < st.len() implies (#[trigger] st[i]).wf() by {
            assert(states[i].wf());
        }
        lemma_receiving_run_hands_over_in_order(st, sq, bt, eo, sent);
        let a = states[m - 1];
        let b = states[m];
        assert(st.last() == a);
        assert(ReliableStream::received(&states[m - 1], &states[m], seqs[m - 1], sent[seqs[m - 1] as int], batches[m - 1], eos[m - 1]));
        lemma_receive_hands_over_in_order(a, b, sent, seqs[m - 1], batches[m - 1], eos[m - 1]);
        let r0 = states[0].recv_next as int;
        lemma_nonempty_add(sent.subrange(r0, a.recv_next as int), sent.subrange(a.recv_next as int, b.recv_next as int));
        assert(sent.subrange(r0, a.recv_next as int) + sent.subrange(a.recv_next as int, b.recv_next as int)
            =~= sent.subrange(r0, b.recv_next as int));
        lemma_nonempty_add(all_handed_over(bt), batches.last());
        assert(all_handed_over(batches) == all_handed_over(bt) + batches.last());
    }
}

/// Some buffered frame has number `k`.
pub open spec fn buffered(buf: Seq<(u64, Vec<u8>)>, k: int) -> bool {
    exists|i: int| 0 <= i < buf.len() && #[trigger] buf[i].0 == k
}

proof fn lemma_drain_run(buf: Seq<(u64, Vec<u8>)>, next: u64)
    requires
        keys_increasing(buf),
        forall|i: int| 0 <= i < buf.len() ==> (#[trigger] buf[i]).0 >= next,
        next + buf.len() < u64::MAX,
    ensures
        ({
            let d = drain_in_order(buf, next);
            let c = d.3 as int;
            &&& c <= buf.len()
            &&& forall|i: int| 0 <= i < c ==> (#[trigger] buf[i]).0 == next + i
            &&& d.1 == next + c
            &&& c < buf.len() ==> buf[c].0 > next + c
            &&& d.0 == buf.take(c).map_values(|e: (u64, Vec<u8>)| e.1@)
            &&& d.2 == exists|i: int| 0 <= i < c && (#[trigger] buf[i]).1@.len() == 0
        }),
    decreases buf.len(),
{
    if buf.len() > 0 && buf[0].0 == next {
        let t = buf.drop_first();
        assert forall|i: int| 0 <= i < t.len() implies (#[trigger] t[i]).0 >= next + 1 by {
            assert(t[i] == buf[i + 1]);
            assert(buf[0].0 < buf[i + 1].0);
        }
        assert(seq_after(next) == next + 1);
        lemma_drain_run(t, (next + 1) as u64);
        let r = drain_in_order(t, (next + 1) as u64);
        let c = r.3 as int + 1;
        assert forall|i: int| 0 <= i < c implies (#[trigger] buf[i]).0 == next + i by {
            if i > 0 {
                assert(buf[i] == t[i - 1]);
            }
        }
        if c < buf.len() {
            assert(buf[c] == t[c - 1]);
        }
        assert(buf.take(c).map_values(|e: (u64, Vec<u8>)| e.1@) =~= seq![buf[0].1@] + t.take(c - 1).map_values(
            |e: (u64, Vec<u8>)| e.1@,
        ));
        if exists|i: int| 0 <= i < c && (#[trigger] buf[i]).1@.len() == 0 {
            let i = choose|i: int| 0 <= i < c && (#[trigger] buf[i]).1@.len() == 0;
            if i > 0 {
                assert(t[i - 1] == buf[i]);
            }
        }
        if exists|i: int| 0 <= i < c - 1 && (#[trigger] t[i]).1@.len() == 0 {
            let i = choose|i: int| 0 <= i < c - 1 && (#[trigger] t[i]).1@.len() == 0;
            assert(buf[i + 1] == t[i]);
        }
    } else {
        assert(buf.take(0).map_values(|e: (u64, Vec<u8>)| e.1@) =~= Seq::<Seq<u8>>::empty());
    }
}

/// An in-order frame hands over its payload (unless empty) and then the buffered frames
/// whose numbers follow it without a gap, in order: the next expected number becomes the
/// least number above the frame's that is not buffered, exactly those buffered frames
/// leave the buffer, every one left lies above the new expected number, and end of
/// stream is reached when the frame or one of those handed over is empty. (Sequence
/// numbers are taken not to wrap.)
pub proof fn lemma_in_order_frame_drains(
    old: ReliableStream,
    new: ReliableStream,
    payload: Seq<u8>,
    delivered: Seq<Seq<u8>>,
    eos: bool,
)
    requires
        old.wf(),
        old.recv_next + old.recv_buffer@.len() + 1 < u64::MAX,
        ReliableStream::received(&old, &new, old.recv_next, payload, delivered, eos),
    ensures
        ({
            let n = old.recv_next;
            let m = new.recv_next;
            let buf = old.recv_buffer@;
            let c = m - n - 1;
            &&& n < m
            &&& c <= buf.len()
            &&& forall|i: int| 0 <= i < c ==> (#[trigger] buf[i]).0 == n + 1 + i
            &&& forall|k: int| n < k < m ==> #[trigger] buffered(buf, k)
            &&& forall|i: int| 0 <= i < buf.len() ==> (#[trigger] buf[i]).0 != m
            &&& delivered == (if payload.len() > 0 {
                seq![payload]
            } else {
                Seq::empty()
            }) + buf.take(c).map_values(|e: (u64, Vec<u8>)| e.1@)
            &&& new.recv_buffer@ == buf.skip(c)
            &&& forall|i: int| 0 <= i < new.recv_buffer@.len() ==> (#[trigger] new.recv_buffer@[i]).0 > m
            &&& eos == (payload.len() == 0 || exists|i: int| 0 <= i < c && (#[trigger] buf[i]).1@.len() == 0)
        }),
{
    let n = old.recv_next;
    let buf = old.recv_buffer@;
    assert(seq_after(n) == n + 1);
    assert forall|i: int| 0 <= i < buf.len() implies (#[trigger] buf[i]).0 >= n + 1 by {
        assert(buf[i].0 > n);
    }
    lemma_drain_run(buf, (n + 1) as u64);
    let d = drain_in_order(buf, (n + 1) as u64);
    let c = d.3 as int;
    let m = new.recv_next;
    assert(m == n + 1 + c);
    assert forall|k: int| n < k < m implies #[trigger] buffered(buf, k) by {
        assert(buf[k - n - 1].0 == k);
    }
    assert forall|i: int| 0 <= i < buf.len() implies (#[trigger] buf[i]).0 != m by {
        if i < c {
            assert(buf[i].0 == n + 1 + i);
        } else if i > c {
            assert(buf[c].0 < buf[i].0);
        }
    }
    assert forall|i: int| 0 <= i < new.recv_buffer@.len() implies (#[trigger] new.recv_buffer@[i]).0 > m by {
        assert(new.recv_buffer@[i] == buf[i + c]);
        if i > 0 {
            assert(buf[c].0 < buf[i + c].0);
        }
    }
}

proof fn lemma_due_before_hits(s: Seq<(u64, UnackedEntry)>, k: int, n: int, now: u64, interval: u64, rtt: u64)
    requires
        0 <= k < due_before(s, n, now, interval, rtt),
    ensures
        exists|i: int|
            0 <= i < n && is_due(s[i].1, now, interval, rtt) && #[trigger] due_before(s, i, now, interval, rtt) == k,
    decreases n,
{
    if n > 0 {
        if k < due_before(s, n - 1, now, interval, rtt) {
            lemma_due_before_hits(s, k, n - 1, now, interval, rtt);
            let i = choose|i: int|
                0 <= i < n - 1 && is_due(s[i].1, now, interval, rtt) && #[trigger] due_before(s, i, now, interval, rtt) == k;
            assert(0 <= i < n && is_due(s[i].1, now, interval, rtt) && due_before(s, i, now, interval, rtt) == k);
        } else {
            assert(is_due(s[n - 1].1, now, interval, rtt) && due_before(s, n - 1, now, interval, rtt) == k);
        }
    }
}

/// Frame `k` of a retransmission pass comes from an unacked entry selected for it.
pub open spec fn returned_from(old: &ReliableStream, out: Seq<StreamFrame>, k: int, stream_id: u32, now: u64, interval: u64, rtt: u64, max: usize) -> bool {
    exists|i: int|
        0 <= i < old.unacked@.len() && selected_for_retransmit(old.unacked@, i, now, interval, rtt, max)
            && #[trigger] due_before(old.unacked@, i, now, interval, rtt) == k && out[k] == StreamFrame {
            stream_id,
            frame_seq: old.unacked@[i].0,
            ack_seq: old.recv_next,
            payload: out[k].payload,
        } && out[k].payload@ == old.unacked@[i].1.payload@
}

/// A retransmission pass returns at most `max` frames, in strictly ascending sequence
/// order, and each of them is a due unacked frame, the due ones taken oldest first.
pub proof fn lemma_retransmit_pass_shape(
    old: ReliableStream,
    new: ReliableStream,
    out: Seq<StreamFrame>,
    stream_id: u32,
    now: u64,
    interval: u64,
    rtt: u64,
    max: usize,
)
    requires
        old.wf(),
        retransmit_pass(&old, &new, out, stream_id, now, interval, rtt, max),
    ensures
        out.len() <= max,
        forall|k: int| 0 <= k < out.len() ==> #[trigger] returned_from(&old, out, k, stream_id, now, interval, rtt, max),
        forall|a: int, b: int| 0 <= a < b < out.len() ==> #[trigger] out[a].frame_seq < #[trigger] out[b].frame_seq,
{
    let u = old.unacked@;
    let n = u.len() as int;
    assert forall|k: int| 0 <= k < out.len() implies #[trigger] returned_from(&old, out, k, stream_id, now, interval, rtt, max) by {
        lemma_due_before_hits(u, k, n, now, interval, rtt);
        let i = choose|i: int| 0 <= i < n && is_due(u[i].1, now, interval, rtt) && #[trigger] due_before(u, i, now, interval, rtt) == k;
        assert(selected_for_retransmit(u, i, now, interval, rtt, max));
        let f = out[due_before(u, i, now, interval, rtt) as int];
        assert(f == StreamFrame { stream_id, frame_seq: u[i].0, ack_seq: old.recv_next, payload: f.payload });
    }
    assert forall|a: int, b: int| 0 <= a < b < out.len() implies #[trigger] out[a].frame_seq < #[trigger] out[b].frame_seq by {
        assert(returned_from(&old, out, a, stream_id, now, interval, rtt, max));
        assert(returned_from(&old, out, b, stream_id, now, interval, rtt, max));
        let i = choose|i: int|
            0 <= i < old.unacked@.len() && selected_for_retransmit(old.unacked@, i, now, interval, rtt, max)
                && #[trigger] due_before(old.unacked@, i, now, interval, rtt) == a && out[a] == StreamFrame {
                stream_id,
                frame_seq: old.unacked@[i].0,
                ack_seq: old.recv_next,
                payload: out[a].payload,
            } && out[a].payload@ == old.unacked@[i].1.payload@;
        let j = choose|j: int|
            0 <= j < old.unacked@.len() && selected_for_retransmit(old.unacked@, j, now, interval, rtt, max)
                && #[trigger] due_before(old.unacked@, j, now, interval, rtt) == b && out[b] == StreamFrame {
                stream_id,
                frame_seq: old.unacked@[j].0,
                ack_seq: old.recv_next,
                payload: out[b].payload,
            } && out[b].payload@ == old.unacked@[j].1.payload@;
        if j <= i {
            lemma_due_before_monotone(u, j, i, now, interval, rtt);
        }
        assert(i < j);
    }
}


/// The due entries among the first `i` unacked ones, oldest first.
pub open spec fn due_entries(s: Seq<(u64, UnackedEntry)>, i: int, now: u64, interval: u64, rtt: u64) -> Seq<(u64, UnackedEntry)>
    decreases i,
{
    if i <= 0 {
        Seq::empty()
    } else {
        let prev = due_entries(s, i - 1, now, interval, rtt);
        if is_due(s[i - 1].1, now, interval, rtt) {
            prev.push(s[i - 1])
        } else {
            prev
        }
    }
}

proof fn lemma_due_entries_len(s: Seq<(u64, UnackedEntry)>, n: int, now: u64, interval: u64, rtt: u64)
    ensures
        due_entries(s, n, now, interval, rtt).len() == due_before(s, n, now, interval, rtt),
    decreases n,
{
    if n > 0 {
        lemma_due_entries_len(s, n - 1, now, interval, rtt);
    }
}

proof fn lemma_due_entries_at(s: Seq<(u64, UnackedEntry)>, i: int, n: int, now: u64, interval: u64, rtt: u64)
    requires
        0 <= i < n,
        is_due(s[i].1, now, interval, rtt),
    ensures
        due_entries(s, n, now, interval, rtt)[due_before(s, i, now, interval, rtt) as int] == s[i],
        due_before(s, i, now, interval, rtt) < due_entries(s, n, now, interval, rtt).len(),
    decreases n,
{
    lemma_due_entries_len(s, i, now, interval, rtt);
    if n > i + 1 {
        lemma_due_entries_at(s, i, n - 1, now, interval, rtt);
    }
}

/// A retransmission pass resends the first `max` due unacked frames, oldest first: frame
/// `k` carries the sequence number and payload of the `k`-th due entry and the current
/// cumulative ACK.
pub proof fn lemma_retransmit_pass_takes_due_prefix(
    old: ReliableStream,
    new: ReliableStream,
    out: Seq<StreamFrame>,
    stream_id: u32,
    now: u64,
    interval: u64,
    rtt: u64,
    max: usize,
)
    requires
        old.wf(),
        retransmit_pass(&old, &new, out, stream_id, now, interval, rtt, max),
    ensures
        ({
            let due = due_entries(old.unacked@, old.unacked@.len() as int, now, interval, rtt);
            &&& out.len() == min_nat(due.len() as int, max as int)
            &&& forall|k: int|
                0 <= k < out.len() ==> {
                    &&& #[trigger] out[k].frame_seq == due[k].0
                    &&& out[k].stream_id == stream_id
                    &&& out[k].ack_seq == old.recv_next
                    &&& out[k].payload@ == due[k].1.payload@
                }
        }),
{
    let u = old.unacked@;
    let n = u.len() as int;
    lemma_due_entries_len(u, n, now, interval, rtt);
    assert forall|k: int| 0 <= k < out.len() implies {
        let due = due_entries(u, n, now, interval, rtt);
        &&& #[trigger] out[k].frame_seq == due[k].0
        &&& out[k].stream_id == stream_id
        &&& out[k].ack_seq == old.recv_next
        &&& out[k].payload@ == due[k].1.payload@
    } by {
        lemma_due_before_hits(u, k, n, now, interval, rtt);
        let i = choose|i: int| 0 <= i < n && is_due(u[i].1, now, interval, rtt) && #[trigger] due_before(u, i, now, interval, rtt) == k;
        assert(selected_for_retransmit(u, i, now, interval, rtt, max));
        lemma_due_entries_at(u, i, n, now, interval, rtt);
        let f = out[due_before(u, i, now, interval, rtt) as int];
        assert(f.frame_seq == u[i].0);
    }
}


/// The frame numbers a cumulative ACK of `ack` removes from the unacked map `s`: those below it.
pub open spec fn acked_keys(s: Seq<(u64, UnackedEntry)>, ack: u64) -> Set<u64> {
    key_map(s).restrict(Set::new(|x: u64| x < ack)).dom()
}

/// A cumulative ACK in terms of the unacked map: exactly the frames numbered below the
/// ACK leave it, their count is what is reported and added to the acked total, the
/// lowest of them is reported first with the ACK as the exclusive end, a gap is reported
/// when they do not run without a hole up to the ACK, and the highest ACK seen becomes
/// the larger of the old one and this one (advanced exactly when this one is larger).
pub proof fn lemma_ack_in_map_form(old: ReliableStream, new: ReliableStream, ack: u64, now: u64)
    requires
        old.wf(),
        old.unacked@.len() <= usize::MAX,
        ReliableStream::ack_applied(&old, &new, ack, now),
    ensures
        ({
            let ks = acked_keys(old.unacked@, ack);
            let d = ReliableStream::ack_details(&old, ack, now);
            &&& key_map(new.unacked@) == key_map(old.unacked@).restrict(Set::new(|x: u64| x >= ack))
            &&& ks.finite()
            &&& d.acked_frames == ks.len()
            &&& d.inflight_before == key_map(old.unacked@).dom().len()
            &&& d.inflight_after == key_map(new.unacked@).dom().len()
            &&& new.total_frames_acked == (if ks.len() == 0 {
                old.total_frames_acked
            } else {
                sat_add_u64(old.total_frames_acked, ks.len() as int)
            })
            &&& (d.avg_latency_ms is Some <==> ks.len() > 0)
            &&& ks.len() == 0 ==> d.first_acked_seq is None && d.last_acked_seq_exclusive is None && !d.gap_detected
            &&& ks.len() > 0 ==> {
                &&& d.first_acked_seq matches Some(m) && ks.contains(m) && (forall|j: u64| #[trigger] ks.contains(j) ==> m <= j)
                &&& d.last_acked_seq_exclusive == Some(ack)
                &&& d.gap_detected == (sat_add_u64(d.first_acked_seq->0, ks.len() as int) != ack)
            }
            &&& d.ack_seq == ack
            &&& d.previous_ack_seq == old.highest_ack_seq_seen
            &&& new.highest_ack_seq_seen == (if ack > old.highest_ack_seq_seen { ack } else { old.highest_ack_seq_seen })
            &&& (d.disposition == AckDisposition::Advanced <==> ack > old.highest_ack_seq_seen)
            &&& d.disposition != AckDisposition::Regression
            &&& new.send_next == old.send_next
            &&& new.ack_latency_samples_ms@.len() <= (if old.ack_latency_samples_ms@.len() >= ACK_LATENCY_SAMPLE_CAP {
                old.ack_latency_samples_ms@.len()
            } else {
                ACK_LATENCY_SAMPLE_CAP as nat
            })
        }),
{
    let s = old.unacked@;
    lemma_count_below(s, ack);
    lemma_key_map_skip_below(s, ack);
    let c = count_below(s, ack) as int;
    if ack == 0 && c > 0 {
        assert(s[0].0 < 0);
    }
    assert(keys_increasing(s.take(c)));
    assert(keys_increasing(s.skip(c)));
    lemma_key_map_len(s.take(c));
    lemma_key_map_len(s.skip(c));
    lemma_key_map_len(s);
    let ks = acked_keys(s, ack);
    assert(ks == key_map(s.take(c)).dom());
    if c > 0 {
        crate::seqmap::lemma_key_map_at(s.take(c), 0);
        assert forall|j: u64| #[trigger] ks.contains(j) implies s[0].0 <= j by {
            let i = choose|i: int| 0 <= i < s.take(c).len() && #[trigger] s.take(c)[i].0 == j;
            if i > 0 {
                assert(s[0].0 < s[i].0);
            }
        }
    }
    let d = ReliableStream::ack_details(&old, ack, now);
    assert(acked_count(s, ack) == c);
    assert(ks.len() == c);
    assert(key_map(new.unacked@) == key_map(s).restrict(Set::new(|x: u64| x >= ack)));
    assert(d.acked_frames == ks.len());
    assert(d.inflight_before == key_map(s).dom().len());
    assert(d.inflight_after == key_map(new.unacked@).dom().len());
    assert(d.avg_latency_ms is Some <==> ks.len() > 0);
}

/// A frame ahead of the expected one, in terms of the receive buffer's map: nothing is
/// handed over, the expected number stays, and the payload is filed under the frame's
/// number unless a copy is already filed there, which is kept.
pub proof fn lemma_frame_ahead_in_map_form(
    old: ReliableStream,
    new: ReliableStream,
    seq: u64,
    payload: Seq<u8>,
    delivered: Seq<Seq<u8>>,
    eos: bool,
)
    requires
        old.wf(),
        seq > old.recv_next,
        ReliableStream::received(&old, &new, seq, payload, delivered, eos),
    ensures
        delivered.len() == 0,
        !eos,
        new.recv_next == old.recv_next,
        key_map(old.recv_buffer@).contains_key(seq) ==> key_map(new.recv_buffer@) == key_map(old.recv_buffer@),
        !key_map(old.recv_buffer@).contains_key(seq) ==> exists|p: Vec<u8>|
            p@ == payload && key_map(new.recv_buffer@) == #[trigger] key_map(old.recv_buffer@).insert(seq, p),
{
    let p = choose|p: Vec<u8>|
        p@ == payload && new.recv_buffer@ == #[trigger] sorted_insert(old.recv_buffer@, seq, p, false);
    lemma_key_map_sorted_insert(old.recv_buffer@, seq, p, false);
    assert(key_map(new.recv_buffer@) == key_map(old.recv_buffer@).insert(seq, p) || key_map(
        old.recv_buffer@,
    ).contains_key(seq));
}

/// An in-order frame, in terms of the receive buffer's map: the frames handed over after
/// it are those filed under the numbers between it and the new expected number, in order,
/// and the buffer keeps exactly the frames filed above the new expected number.
/// (Sequence numbers are taken not to wrap.)
pub proof fn lemma_in_order_frame_in_map_form(
    old: ReliableStream,
    new: ReliableStream,
    payload: Seq<u8>,
    delivered: Seq<Seq<u8>>,
    eos: bool,
)
    requires
        old.wf(),
        old.recv_next + old.recv_buffer@.len() + 1 < u64::MAX,
        ReliableStream::received(&old, &new, old.recv_next, payload, delivered, eos),
    ensures
        ({
            let n = old.recv_next;
            let m = new.recv_next;
            let before = key_map(old.recv_buffer@);
            &&& n < m
            &&& forall|k: u64| n < k < m ==> #[trigger] before.contains_key(k)
            &&& !before.contains_key(m)
            &&& delivered == (if payload.len() > 0 {
                seq![payload]
            } else {
                Seq::empty()
            }) + Seq::new((m - n - 1) as nat, |i: int| before[(n + 1 + i) as u64]@)
            &&& key_map(new.recv_buffer@) == before.restrict(Set::new(|x: u64| x > m))
            &&& eos == (payload.len() == 0 || exists|k: u64| n < k < m && (#[trigger] before[k])@.len() == 0)
        }),
{
    lemma_in_order_frame_drains(old, new, payload, delivered, eos);
    let n = old.recv_next;
    let m = new.recv_next;
    let buf = old.recv_buffer@;
    let before = key_map(buf);
    let c = m - n - 1;
    assert forall|j: int| 0 <= j < c implies #[trigger] buf[j].0 < m by {
        assert(buf[j].0 == n + 1 + j);
    }
    if c < buf.len() {
        assert(new.recv_buffer@[0] == buf[c]);
    }
    lemma_count_below_unique(buf, m, c);
    lemma_key_map_skip_below(buf, m);
    assert forall|k: u64| n < k < m implies #[trigger] before.contains_key(k) by {
        crate::seqmap::lemma_key_map_at(buf, k - n - 1);
    }
    if before.contains_key(m) {
        let i = choose|i: int| 0 <= i < buf.len() && #[trigger] buf[i].0 == m;
        assert(buf[i].0 != m);
    }
    assert(before.restrict(Set::new(|x: u64| x >= m)) =~= before.restrict(Set::new(|x: u64| x > m)));
    let tail = Seq::new(c as nat, |i: int| before[(n + 1 + i) as u64]@);
    let taken = buf.take(c).map_values(|e: (u64, Vec<u8>)| e.1@);
    assert forall|i: int| 0 <= i < c implies #[trigger] taken[i] == tail[i] by {
        crate::seqmap::lemma_key_map_at(buf, i);
        assert(buf[i].0 == (n + 1 + i) as u64);
    }
    assert(taken =~= tail);
    if exists|i: int| 0 <= i < c && (#[trigger] buf[i]).1@.len() == 0 {
        let i = choose|i: int| 0 <= i < c && (#[trigger] buf[i]).1@.len() == 0;
        crate::seqmap::lemma_key_map_at(buf, i);
        let k = buf[i].0;
        assert(n < k < m && before[k]@.len() == 0);
    }
    if exists|k: u64| n < k < m && (#[trigger] before[k])@.len() == 0 {
        let k = choose|k: u64| n < k < m && (#[trigger] before[k])@.len() == 0;
        let i = k - n - 1;
        crate::seqmap::lemma_key_map_at(buf, i);
        assert(0 <= i < c && buf[i].1@.len() == 0);
    }
}


proof fn lemma_backoff_frame_waited(
    old: ReliableStream,
    new: ReliableStream,
    out: Seq<StreamFrame>,
    stream_id: u32,
    now: u64,
    rtt: u64,
    max: usize,
    k: int,
)
    requires
        old.wf(),
        rtt > 0,
        retransmit_pass(&old, &new, out, stream_id, now, 0, rtt, max),
        0 <= k < out.len(),
    ensures
        key_map(old.unacked@).contains_key(out[k].frame_seq),
        sat_sub_u64(now, key_map(old.unacked@)[out[k].frame_seq].last_sent_ms) >= retransmit_timeout_spec(
            rtt,
            key_map(old.unacked@)[out[k].frame_seq].retransmit_count,
        ),
{
    lemma_retransmit_pass_shape(old, new, out, stream_id, now, 0, rtt, max);
    assert(returned_from(&old, out, k, stream_id, now, 0, rtt, max));
    let i = choose|i: int|
        0 <= i < old.unacked@.len() && selected_for_retransmit(old.unacked@, i, now, 0, rtt, max)
            && #[trigger] due_before(old.unacked@, i, now, 0, rtt) == k && out[k] == StreamFrame {
            stream_id,
            frame_seq: old.unacked@[i].0,
            ack_seq: old.recv_next,
            payload: out[k].payload,
        } && out[k].payload@ == old.unacked@[i].1.payload@;
    crate::seqmap::lemma_key_map_at(old.unacked@, i);
    assert(is_due(old.unacked@[i].1, now, 0, rtt));
}

/// Backoff retransmission: with a round trip `rtt` > 0, a pass resends a frame (an
/// unacked one) only once the time since its last send has reached the retransmission timeout for the number of
/// times it was already retransmitted; a frame that has not waited that long is not
/// resent; and while fewer than `max` frames go out, every frame that has waited that
/// long is resent.
#[verifier::spinoff_prover]
pub proof fn lemma_backoff_pass_waits(
    old: ReliableStream,
    new: ReliableStream,
    out: Seq<StreamFrame>,
    stream_id: u32,
    now: u64,
    rtt: u64,
    max: usize,
)
    requires
        old.wf(),
        rtt > 0,
        retransmit_pass(&old, &new, out, stream_id, now, 0, rtt, max),
    ensures
        forall|k: int|
            0 <= k < out.len() ==> key_map(old.unacked@).contains_key(#[trigger] out[k].frame_seq) && sat_sub_u64(
                now,
                key_map(old.unacked@)[out[k].frame_seq].last_sent_ms,
            ) >= retransmit_timeout_spec(rtt, key_map(old.unacked@)[out[k].frame_seq].retransmit_count),
        forall|i: int, k: int|
            0 <= i < old.unacked@.len() && 0 <= k < out.len() && sat_sub_u64(now, old.unacked@[i].1.last_sent_ms)
                < retransmit_timeout_spec(rtt, old.unacked@[i].1.retransmit_count) ==> #[trigger] out[k].frame_seq
                != #[trigger] old.unacked@[i].0,
        out.len() < max ==> forall|i: int|
            0 <= i < old.unacked@.len() && sat_sub_u64(now, old.unacked@[i].1.last_sent_ms) >= retransmit_timeout_spec(
                rtt,
                old.unacked@[i].1.retransmit_count,
            ) ==> exists|k: int| 0 <= k < out.len() && #[trigger] out[k].frame_seq == old.unacked@[i].0,
{
    let u = old.unacked@;
    let n = u.len() as int;
    lemma_retransmit_pass_shape(old, new, out, stream_id, now, 0, rtt, max);
    assert forall|k: int|
        0 <= k < out.len() implies key_map(old.unacked@).contains_key(#[trigger] out[k].frame_seq) && sat_sub_u64(
            now,
            key_map(old.unacked@)[out[k].frame_seq].last_sent_ms,
        ) >= retransmit_timeout_spec(rtt, key_map(old.unacked@)[out[k].frame_seq].retransmit_count) by {
        lemma_backoff_frame_waited(old, new, out, stream_id, now, rtt, max, k);
    }
    assert forall|i: int, k: int|
        0 <= i < u.len() && 0 <= k < out.len() && sat_sub_u64(now, u[i].1.last_sent_ms) < retransmit_timeout_spec(
            rtt,
            u[i].1.retransmit_count,
        ) implies #[trigger] out[k].frame_seq != #[trigger] u[i].0 by {
        assert(returned_from(&old, out, k, stream_id, now, 0, rtt, max));
        let j = choose|j: int|
            0 <= j < old.unacked@.len() && selected_for_retransmit(old.unacked@, j, now, 0, rtt, max)
                && #[trigger] due_before(old.unacked@, j, now, 0, rtt) == k && out[k] == StreamFrame {
                stream_id,
                frame_seq: old.unacked@[j].0,
                ack_seq: old.recv_next,
                payload: out[k].payload,
            } && out[k].payload@ == old.unacked@[j].1.payload@;
        if j < i {
            assert(u[j].0 < u[i].0);
        } else if j > i {
            assert(u[i].0 < u[j].0);
        }
    }
    if out.len() < max {
        assert forall|i: int|
            0 <= i < u.len() && sat_sub_u64(now, u[i].1.last_sent_ms) >= retransmit_timeout_spec(
                rtt,
                u[i].1.retransmit_count,
            ) implies exists|k: int| 0 <= k < out.len() && #[trigger] out[k].frame_seq == u[i].0 by {
            assert(is_due(u[i].1, now, 0, rtt));
            lemma_due_before_monotone(u, i + 1, n, now, 0, rtt);
            assert(due_before(u, i + 1, now, 0, rtt) == due_before(u, i, now, 0, rtt) + 1);
            assert(selected_for_retransmit(u, i, now, 0, rtt, max));
            let k = due_before(u, i, now, 0, rtt) as int;
            assert(out[k].frame_seq == u[i].0);
        }
    }
}

} // verus!
