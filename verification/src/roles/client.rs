//! Client-side decisions around tunnelled HTTP responses: when a buffered response is
//! complete, which state a response packet or ACK belongs to, how long the transport is
//! left to settle after a local completion, and the bookkeeping of completed streams
//! and close signals.
use crate::http::{content_length_spec, extract_http_host_from_request, header_end_spec, http_content_length, http_header_end, http_host_spec, utf8_text};
use crate::linger::{lingers, LingerTable};
use crate::addr::NodeAddr;
use crate::crypto::{session_key, x25519_public};
use crate::handshake::{
    build_handshake_init, build_handshake_init_with_cookie, decode_ack_payload, decode_challenge_payload,
    derive_session_key_from_ack, encode_plaintext, handshake_header, init_payload_bytes, parse_ack_payload, udp_native,
    HandshakeError,
};
use crate::protocol::{decode, parse_tunnel, tunnel_bytes, DecodeError, Header, MsgType, TunnelMessage, PROTOCOL_VERSION};
use crate::route::Route;
use crate::session::SessionCrypto;
use crate::wire::{
    build_handshake_packet, packet_bytes, parse_packet, parse_routing_header, routing_bytes, RoutingInfo, WireError,
};
use vstd::prelude::*;
use vstd::utf8::encode_utf8;

verus! {

/// How long a completed response stream is remembered, in milliseconds.
pub const COMPLETED_RESPONSE_STREAM_LINGER_MS: u64 = 30_000;

pub const MAX_COMPLETED_RESPONSE_STREAMS: usize = 2048;

/// How long a seen close signal is remembered, in milliseconds.
pub const CLOSE_FEEDBACK_LINGER_MS: u64 = 30_000;

pub const MAX_CLOSE_FEEDBACK_STREAMS: usize = 2048;

/// Quiet time after the last transport event that ends settlement once both terminal
/// signals were seen, in milliseconds.
pub const BUFFERED_RESPONSE_TRANSPORT_SETTLEMENT_QUIET_PERIOD_MS: u64 = 250;

/// Longest settlement, in milliseconds.
pub const BUFFERED_RESPONSE_TRANSPORT_SETTLEMENT_MAX_MS: u64 = 2_000;

pub const BUFFERED_HTTP_RESPONSE_SOFT_CAP_SLACK: usize = 262_144;

pub const BUFFERED_HTTP_RESPONSE_CONTENT_LENGTH_SLACK: usize = 4_096;

pub const BUFFERED_HTTP_RESPONSE_HARD_CAP: usize = 16_777_216;

/// What is known of a buffered HTTP response so far, and whether it is complete.
#[derive(Clone, Copy, Debug, PartialEq, Eq)]
pub struct BufferedHttpResponseInspection {
    pub header_end: Option<usize>,
    pub content_length: Option<usize>,
    pub expected_total: Option<usize>,
    pub fallback_cap: usize,
    pub hard_cap: usize,
    pub active_cap: usize,
    pub content_length_exceeds_cap: bool,
    pub completion_reason: Option<&'static str>,
}

pub open spec fn sat_add(a: int, b: int) -> int {
    if a + b > usize::MAX {
        usize::MAX as int
    } else {
        a + b
    }
}

pub open spec fn max(a: int, b: int) -> int {
    if a >= b {
        a
    } else {
        b
    }
}

pub open spec fn min(a: int, b: int) -> int {
    if a <= b {
        a
    } else {
        b
    }
}

/// The reason recorded when the Content-Length total was received.
pub open spec fn content_length_reached() -> &'static str {
    "content_length_reached"
}

/// The reason recorded when the buffer cap was reached first.
pub open spec fn buffer_cap_reached() -> &'static str {
    "buffer_cap_reached"
}

/// Inspect a buffered response to a request of `request_len` bytes. The fallback cap is
/// the request length plus a slack; a Content-Length raises the cap to the expected total
/// plus a smaller slack, never above the hard cap. The response is complete when the
/// expected total arrived (if within the hard cap), or when the active cap is reached.
pub fn inspect_buffered_http_response(request_len: usize, response: &[u8]) -> (r: BufferedHttpResponseInspection)
    ensures
        ({
            let fallback = sat_add(request_len as int, BUFFERED_HTTP_RESPONSE_SOFT_CAP_SLACK as int);
            let hard = max(fallback, BUFFERED_HTTP_RESPONSE_HARD_CAP as int);
            &&& r.fallback_cap == fallback
            &&& r.hard_cap == hard
            &&& match content_length_spec(response@) {
                Some((hdr_end, body_len)) => {
                    let expected = sat_add(hdr_end, body_len);
                    let active = min(
                        max(fallback, sat_add(expected, BUFFERED_HTTP_RESPONSE_CONTENT_LENGTH_SLACK as int)),
                        hard,
                    );
                    &&& r.header_end == Some(hdr_end as usize)
                    &&& r.content_length == Some(body_len as usize)
                    &&& r.expected_total == Some(expected as usize)
                    &&& r.active_cap == active
                    &&& r.content_length_exceeds_cap == (expected > hard)
                    &&& r.completion_reason == (if expected <= hard && response@.len() >= expected {
                        Some(content_length_reached())
                    } else if response@.len() >= active {
                        Some(buffer_cap_reached())
                    } else {
                        None
                    })
                },
                None => {
                    &&& r.header_end == (match header_end_spec(response@) {
                        Some(e) => Some(e as usize),
                        None => None::<usize>,
                    })
                    &&& r.content_length is None
                    &&& r.expected_total is None
                    &&& r.active_cap == fallback
                    &&& !r.content_length_exceeds_cap
                    &&& r.completion_reason == (if response@.len() >= fallback {
                        Some(buffer_cap_reached())
                    } else {
                        None
                    })
                },
            }
        }),
{
    let fallback_cap = request_len.saturating_add(BUFFERED_HTTP_RESPONSE_SOFT_CAP_SLACK);
    let hard_cap = if fallback_cap >= BUFFERED_HTTP_RESPONSE_HARD_CAP {
        fallback_cap
    } else {
        BUFFERED_HTTP_RESPONSE_HARD_CAP
    };
    let header_end = http_header_end(response);
    match http_content_length(response) {
        Some((hdr_end, body_len)) => {
            let expected_total = hdr_end.saturating_add(body_len);
            let with_slack = expected_total.saturating_add(BUFFERED_HTTP_RESPONSE_CONTENT_LENGTH_SLACK);
            let raised = if fallback_cap >= with_slack {
                fallback_cap
            } else {
                with_slack
            };
            let active_cap = if raised <= hard_cap {
                raised
            } else {
                hard_cap
            };
            let content_length_exceeds_cap = expected_total > hard_cap;
            let completion_reason = if !content_length_exceeds_cap && response.len() >= expected_total {
                Some("content_length_reached")
            } else if response.len() >= active_cap {
                Some("buffer_cap_reached")
            } else {
                None
            };
            BufferedHttpResponseInspection {
                header_end: Some(hdr_end),
                content_length: Some(body_len),
                expected_total: Some(expected_total),
                fallback_cap,
                hard_cap,
                active_cap,
                content_length_exceeds_cap,
                completion_reason,
            }
        },
        None => {
            let completion_reason = if response.len() >= fallback_cap {
                Some("buffer_cap_reached")
            } else {
                None
            };
            BufferedHttpResponseInspection {
                header_end,
                content_length: None,
                expected_total: None,
                fallback_cap,
                hard_cap,
                active_cap: fallback_cap,
                content_length_exceeds_cap: false,
                completion_reason,
            }
        },
    }
}

/// The hop lists of routes.
pub open spec fn hop_lists(rs: Seq<Route>) -> Seq<Seq<NodeAddr>> {
    rs.map_values(|r: Route| r.hops@)
}

/// The lists in order, each kept only where it first occurs.
pub open spec fn first_occurrences(s: Seq<Seq<NodeAddr>>) -> Seq<Seq<NodeAddr>>
    decreases s.len(),
{
    if s.len() == 0 {
        Seq::empty()
    } else {
        let d = first_occurrences(s.drop_last());
        if d.contains(s.last()) {
            d
        } else {
            d.push(s.last())
        }
    }
}

/// The candidate routes of a client: straight to the exit, through the relay, through
/// both relays (each where that relay is given), then the configured route, without
/// repeats.
pub open spec fn candidate_routes_spec(
    primary: Seq<NodeAddr>,
    exit: NodeAddr,
    relay: Option<NodeAddr>,
    relay2: Option<NodeAddr>,
) -> Seq<Seq<NodeAddr>> {
    let direct: Seq<Seq<NodeAddr>> = seq![seq![exit]];
    let via = match relay {
        Some(r1) => seq![seq![r1, exit]] + match relay2 {
            Some(r2) => seq![seq![r1, r2, exit]],
            None => Seq::<Seq<NodeAddr>>::empty(),
        },
        None => Seq::<Seq<NodeAddr>>::empty(),
    };
    first_occurrences(direct + via + seq![primary])
}

fn same_hops(a: &Vec<NodeAddr>, b: &Vec<NodeAddr>) -> (r: bool)
    ensures
        r == (a@ == b@),
{
    if a.len() != b.len() {
        return false;
    }
    let mut i: usize = 0;
    while i < a.len()
        invariant
            i <= a@.len(),
            a@.len() == b@.len(),
            forall|j: int| 0 <= j < i ==> a@[j] == b@[j],
        decreases a@.len() - i,
    {
        if a[i] != b[i] {
            return false;
        }
        i = i + 1;
    }
    assert(a@ =~= b@);
    true
}

/// The candidate routes beside the configured `primary` one: the exit alone, the relay
/// and the exit, the two relays and the exit (where those relays are given), and the
/// primary route, each hop list once, first occurrence kept.
pub fn candidate_routes(primary: &Route, exit: NodeAddr, relay: Option<NodeAddr>, relay2: Option<NodeAddr>) -> (r: Vec<
    Route,
>)
    ensures
        hop_lists(r@) == candidate_routes_spec(primary.hops@, exit, relay, relay2),
{
    let ghost direct: Seq<Seq<NodeAddr>> = seq![seq![exit]];
    let ghost via = match relay {
        Some(r1) => seq![seq![r1, exit]] + match relay2 {
            Some(r2) => seq![seq![r1, r2, exit]],
            None => Seq::<Seq<NodeAddr>>::empty(),
        },
        None => Seq::<Seq<NodeAddr>>::empty(),
    };
    let mut cands: Vec<Route> = Vec::new();
    let mut h0: Vec<NodeAddr> = Vec::new();
    h0.push(exit);
    assert(h0@ =~= seq![exit]);
    cands.push(Route { hops: h0 });
    assert(hop_lists(cands@) =~= direct);
    if let Some(r1) = relay {
        let mut h1: Vec<NodeAddr> = Vec::new();
        h1.push(r1);
        h1.push(exit);
        assert(h1@ =~= seq![r1, exit]);
        let ghost c0 = cands@;
        cands.push(Route { hops: h1 });
        assert(cands@[0] == c0[0]);
        assert(hop_lists(cands@) =~= direct + seq![seq![r1, exit]]);
        if let Some(r2) = relay2 {
            let mut h2: Vec<NodeAddr> = Vec::new();
            h2.push(r1);
            h2.push(r2);
            h2.push(exit);
            assert(h2@ =~= seq![r1, r2, exit]);
            let ghost c1 = cands@;
            cands.push(Route { hops: h2 });
            assert(cands@[0] == c1[0] && cands@[1] == c1[1]);
            assert(hop_lists(cands@) =~= direct + seq![seq![r1, exit]] + seq![seq![r1, r2, exit]]);
            assert(via =~= seq![seq![r1, exit]] + seq![seq![r1, r2, exit]]);
        } else {
            assert(via =~= seq![seq![r1, exit]]);
        }
    } else {
        assert(via =~= Seq::<Seq<NodeAddr>>::empty());
    }
    assert(hop_lists(cands@) =~= direct + via);
    let p = primary.duplicate();
    cands.push(p);
    let ghost all = hop_lists(cands@);
    assert(all =~= direct + via + seq![primary.hops@]);
    let mut out: Vec<Route> = Vec::new();
    let mut i: usize = 0;
    while i < cands.len()
        invariant
            i <= cands@.len(),
            all == hop_lists(cands@),
            hop_lists(out@) == first_occurrences(all.take(i as int)),
        decreases cands@.len() - i,
    {
        assert(all.take(i + 1).drop_last() =~= all.take(i as int));
        assert(all.take(i + 1).last() == cands@[i as int].hops@);
        let mut found = false;
        let mut k: usize = 0;
        while k < out.len()
            invariant
                k <= out@.len(),
                i < cands@.len(),
                found == exists|m: int| 0 <= m < k && out@[m].hops@ == cands@[i as int].hops@,
            decreases out@.len() - k,
        {
            if same_hops(&out[k].hops, &cands[i].hops) {
                found = true;
            }
            k = k + 1;
        }
        let ghost d = hop_lists(out@);
        assert(found == d.contains(cands@[i as int].hops@)) by {
            if found {
                let m = choose|m: int| 0 <= m < out@.len() && out@[m].hops@ == cands@[i as int].hops@;
                assert(d[m] == cands@[i as int].hops@);
            }
            if d.contains(cands@[i as int].hops@) {
                let m = choose|m: int| 0 <= m < d.len() && d[m] == cands@[i as int].hops@;
                assert(out@[m].hops@ == d[m]);
            }
        }
        if !found {
            out.push(cands[i].duplicate());
            assert(hop_lists(out@) =~= d.push(cands@[i as int].hops@));
        }
        i = i + 1;
    }
    assert(all.take(cands@.len() as int) =~= all);
    out
}

/// How reading a request from the local connection goes on.
#[derive(Debug, Clone, Copy, PartialEq, Eq, Structural)]
pub enum RequestReadPlan {
    /// The bytes start a TLS record: stop buffering and stream the connection.
    TlsRecord,
    /// The whole request is there: through its Content-Length body, or through the end
    /// of its headers when it has none.
    Complete,
    /// More bytes are needed; `known_total` is the request's length when its
    /// Content-Length gives it (and it fits in a `usize`).
    NeedMore { known_total: Option<usize> },
}

/// The plan for a request buffered so far.
pub open spec fn request_read_plan_spec(buf: Seq<u8>) -> RequestReadPlan {
    if buf.len() > 0 && buf[0] == 0x16 {
        RequestReadPlan::TlsRecord
    } else {
        match content_length_spec(buf) {
            Some((h, n)) => if buf.len() >= h + n {
                RequestReadPlan::Complete
            } else {
                RequestReadPlan::NeedMore {
                    known_total: if h + n <= usize::MAX {
                        Some((h + n) as usize)
                    } else {
                        None
                    },
                }
            },
            None => match header_end_spec(buf) {
                Some(e) => if buf.len() >= e {
                    RequestReadPlan::Complete
                } else {
                    RequestReadPlan::NeedMore { known_total: None }
                },
                None => RequestReadPlan::NeedMore { known_total: None },
            },
        }
    }
}

/// Decide, from the bytes read so far, whether a local request is complete, is TLS, or
/// needs more bytes.
pub fn plan_request_read(buf: &[u8]) -> (r: RequestReadPlan)
    ensures
        r == request_read_plan_spec(buf@),
{
    if buf.len() > 0 && buf[0] == 0x16 {
        return RequestReadPlan::TlsRecord;
    }
    match http_content_length(buf) {
        Some((h, n)) => {
            if buf.len() >= h && buf.len() - h >= n {
                RequestReadPlan::Complete
            } else {
                let total = h.checked_add(n);
                RequestReadPlan::NeedMore { known_total: total }
            }
        },
        None => match http_header_end(buf) {
            Some(e) => {
                if buf.len() >= e {
                    RequestReadPlan::Complete
                } else {
                    RequestReadPlan::NeedMore { known_total: None }
                }
            },
            None => RequestReadPlan::NeedMore { known_total: None },
        },
    }
}

/// A close of a buffered response must wait while fewer bytes than the expected total
/// have arrived; without an expected total it finishes at once.
pub fn buffered_close_requires_wait(expected_total: Option<usize>, response_len: usize) -> (r: bool)
    ensures
        r == (match expected_total {
            Some(t) => response_len < t,
            None => false,
        }),
{
    match expected_total {
        Some(t) => response_len < t,
        None => false,
    }
}

/// UTF-8 bytes of `content_length_reached`.
pub open spec fn content_length_reached_bytes() -> Seq<u8> {
    seq![99u8, 111, 110, 116, 101, 110, 116, 95, 108, 101, 110, 103, 116, 104, 95, 114, 101, 97, 99, 104, 101, 100]
}

/// Only a completion by Content-Length waits for the terminal transport signals.
pub fn completion_reason_uses_terminal_settlement(completion_reason: &str) -> (r: bool)
    ensures
        r == (encode_utf8(completion_reason@) == content_length_reached_bytes()),
{
    let b = completion_reason.as_bytes();
    assert(b@ == encode_utf8(completion_reason@));
    let target: [u8; 22] = [99, 111, 110, 116, 101, 110, 116, 95, 108, 101, 110, 103, 116, 104, 95, 114, 101, 97, 99, 104, 101, 100];
    assert(target@ =~= content_length_reached_bytes());
    if b.len() != 22 {
        return false;
    }
    let mut i: usize = 0;
    while i < 22
        invariant
            b@.len() == 22,
            b@ == encode_utf8(completion_reason@),
            target@ == content_length_reached_bytes(),
            i <= 22,
            forall|j: int| 0 <= j < i ==> b@[j] == target@[j],
        decreases 22 - i,
    {
        if b[i] != target[i] {
            assert(b@[i as int] != content_length_reached_bytes()[i as int]);
            assert(b@ != content_length_reached_bytes());
            return false;
        }
        i = i + 1;
    }
    assert(b@ =~= content_length_reached_bytes());
    true
}

/// The site of a request for labelling: its Host header, or `unknown`.
pub fn request_site_label(req: &[u8]) -> (r: String)
    ensures
        r@ == (match utf8_text(http_host_spec(req@)) {
            Some(h) => if h.len() > 0 {
                h
            } else {
                "unknown"@
            },
            None => "unknown"@,
        }),
{
    match extract_http_host_from_request(req) {
        Some(h) => {
            if !h.is_empty() {
                String::from_str(h)
            } else {
                String::from_str("unknown")
            }
        },
        None => String::from_str("unknown"),
    }
}

/// Close signals seen per stream, each with the time it was first seen.
pub type CloseSignalSeenTable = LingerTable<()>;

/// Forget close signals older than the linger time, then the oldest beyond the cap.
pub fn purge_close_signal_seen(map: &mut CloseSignalSeenTable, now_ms: u64)
    requires
        old(map).wf(),
    ensures
        final(map).wf(),
        close_signal_purged(old(map).times(), final(map).times(), now_ms),
{
    map.purge(now_ms, CLOSE_FEEDBACK_LINGER_MS, MAX_CLOSE_FEEDBACK_STREAMS);
    proof {
        map.lemma_times_finite();
    }
}

/// `mid` is what purging the close-signal times `old` at `now_ms` may leave: the records
/// still lingering, all of them while there were at most the capacity, else the newest up
/// to the capacity.
pub open spec fn close_signal_purged(before: Map<u32, u64>, mid: Map<u32, u64>, now_ms: u64) -> bool {
    &&& mid.dom().finite()
    &&& mid.len() <= MAX_CLOSE_FEEDBACK_STREAMS
    &&& forall|k: u32| #[trigger]
        mid.contains_key(k) ==> before.contains_key(k) && mid[k] == before[k] && lingers(now_ms, before[k], CLOSE_FEEDBACK_LINGER_MS)
    &&& (forall|k: u32|
        #[trigger] before.contains_key(k) && lingers(now_ms, before[k], CLOSE_FEEDBACK_LINGER_MS) ==> mid.contains_key(k))
        || mid.len() == MAX_CLOSE_FEEDBACK_STREAMS
    &&& forall|r: u32, k: u32|
        before.contains_key(r) && lingers(now_ms, before[r], CLOSE_FEEDBACK_LINGER_MS) && !mid.contains_key(r)
            && #[trigger] mid.contains_key(k) ==> #[trigger] before[r] <= before[k]
    &&& before.len() <= MAX_CLOSE_FEEDBACK_STREAMS ==> forall|k: u32|
        #[trigger] before.contains_key(k) && lingers(now_ms, before[k], CLOSE_FEEDBACK_LINGER_MS) ==> mid.contains_key(k)
}

/// Record a close signal for `stream_id` at `now_ms`; true only the first time it is seen
/// within the linger window, so a duplicate close does not re-enter close handling.
/// The table after the call is the purged table, with `stream_id` entered at `now_ms`
/// when the result is true and as it was otherwise.
pub fn mark_close_signal_seen(map: &mut CloseSignalSeenTable, stream_id: u32, now_ms: u64) -> (r: bool)
    requires
        old(map).wf(),
    ensures
        final(map).wf(),
        exists|mid: Map<u32, u64>|
            #[trigger] close_signal_purged(old(map).times(), mid, now_ms) && (r <==> !mid.contains_key(stream_id))
                && final(map).times() == (if r {
                mid.insert(stream_id, now_ms)
            } else {
                mid
            }),
        final(map).times().len() <= MAX_CLOSE_FEEDBACK_STREAMS + (if r {
            1int
        } else {
            0int
        }),
        final(map).times().contains_key(stream_id),
        r ==> final(map).times()[stream_id] == now_ms,
        !r ==> final(map).times()[stream_id] == old(map).times()[stream_id] && lingers(
            now_ms,
            old(map).times()[stream_id],
            CLOSE_FEEDBACK_LINGER_MS,
        ),
        old(map).times().contains_key(stream_id) && lingers(now_ms, old(map).times()[stream_id], CLOSE_FEEDBACK_LINGER_MS)
            && old(map).times().len() <= MAX_CLOSE_FEEDBACK_STREAMS ==> !r,
        !(old(map).times().contains_key(stream_id) && lingers(now_ms, old(map).times()[stream_id], CLOSE_FEEDBACK_LINGER_MS))
            ==> r,
{
    purge_close_signal_seen(map, now_ms);
    let ghost mid = map.times();
    proof {
        map.lemma_times_finite();
        assert(close_signal_purged(old(map).times(), mid, now_ms));
    }
    if map.contains(stream_id) {
        return false;
    }
    map.insert(stream_id, now_ms, ());
    true
}

/// A completed response stream kept for late packets: what the caller keeps for it
/// (its reliable stream and route), why it completed, and counts of late signals.
#[derive(Clone, Debug)]
pub struct CompletedResponseStream<P> {
    pub payload: P,
    pub completion_reason: &'static str,
    pub late_payloads: u64,
    pub duplicate_payload_signals: u64,
    pub late_close_signals: u64,
    pub terminal_payload_signals: u64,
    pub terminal_close_signals: u64,
}

pub type CompletedResponseStreamTable<P> = LingerTable<CompletedResponseStream<P>>;

/// Forget completed streams older than the linger time, then the oldest beyond the cap.
pub fn purge_completed_response_streams<P>(map: &mut CompletedResponseStreamTable<P>, now_ms: u64)
    requires
        old(map).wf(),
    ensures
        final(map).wf(),
        forall|k: u32| #[trigger]
            final(map).times().contains_key(k) ==> old(map).times().contains_key(k) && final(map).times()[k]
                == old(map).times()[k] && final(map).values()[k] == old(map).values()[k] && lingers(
                now_ms,
                old(map).times()[k],
                COMPLETED_RESPONSE_STREAM_LINGER_MS,
            ),
        final(map).times().len() <= MAX_COMPLETED_RESPONSE_STREAMS,
        (forall|k: u32|
            #[trigger] old(map).times().contains_key(k) && lingers(
                now_ms,
                old(map).times()[k],
                COMPLETED_RESPONSE_STREAM_LINGER_MS,
            ) ==> final(map).times().contains_key(k)) || final(map).times().len() == MAX_COMPLETED_RESPONSE_STREAMS,
{
    map.purge(now_ms, COMPLETED_RESPONSE_STREAM_LINGER_MS, MAX_COMPLETED_RESPONSE_STREAMS);
}

/// Remember a completed stream at `now_ms` with all counters at zero (after a purge).
pub fn remember_completed_response_stream<P>(
    map: &mut CompletedResponseStreamTable<P>,
    stream_id: u32,
    payload: P,
    completion_reason: &'static str,
    now_ms: u64,
)
    requires
        old(map).wf(),
    ensures
        final(map).wf(),
        final(map).times().contains_key(stream_id),
        final(map).times()[stream_id] == now_ms,
        final(map).values()[stream_id] == (CompletedResponseStream {
            payload,
            completion_reason,
            late_payloads: 0,
            duplicate_payload_signals: 0,
            late_close_signals: 0,
            terminal_payload_signals: 0,
            terminal_close_signals: 0,
        }),
{
    purge_completed_response_streams(map, now_ms);
    map.insert(
        stream_id,
        now_ms,
        CompletedResponseStream {
            payload,
            completion_reason,
            late_payloads: 0,
            duplicate_payload_signals: 0,
            late_close_signals: 0,
            terminal_payload_signals: 0,
            terminal_close_signals: 0,
        },
    );
}

/// A copy of the completed stream `stream_id`, if still remembered at `now_ms`.
pub fn snapshot_completed_response_stream<P: Clone>(
    map: &mut CompletedResponseStreamTable<P>,
    stream_id: u32,
    now_ms: u64,
) -> (r: Option<CompletedResponseStream<P>>)
    requires
        old(map).wf(),
    ensures
        final(map).wf(),
        r is Some <==> final(map).times().contains_key(stream_id),
        r matches Some(c) ==> c.completion_reason == final(map).values()[stream_id].completion_reason
            && c.late_payloads == final(map).values()[stream_id].late_payloads,
        final(map).times().contains_key(stream_id) ==> lingers(now_ms, old(map).times()[stream_id], COMPLETED_RESPONSE_STREAM_LINGER_MS),
{
    purge_completed_response_streams(map, now_ms);
    match map.get(stream_id) {
        Some(c) => Some(
            CompletedResponseStream {
                payload: c.payload.clone(),
                completion_reason: c.completion_reason,
                late_payloads: c.late_payloads,
                duplicate_payload_signals: c.duplicate_payload_signals,
                late_close_signals: c.late_close_signals,
                terminal_payload_signals: c.terminal_payload_signals,
                terminal_close_signals: c.terminal_close_signals,
            },
        ),
        None => None,
    }
}

/// Which counter of a completed stream a late signal bumps.
#[derive(Clone, Copy, Debug, PartialEq, Eq, Structural)]
pub enum LateSignal {
    LatePayload,
    DuplicatePayload,
    LateClose,
    TerminalPayload,
    TerminalClose,
}

pub open spec fn counter_of<P>(c: CompletedResponseStream<P>, s: LateSignal) -> u64 {
    match s {
        LateSignal::LatePayload => c.late_payloads,
        LateSignal::DuplicatePayload => c.duplicate_payload_signals,
        LateSignal::LateClose => c.late_close_signals,
        LateSignal::TerminalPayload => c.terminal_payload_signals,
        LateSignal::TerminalClose => c.terminal_close_signals,
    }
}

pub open spec fn sat_inc(x: u64) -> u64 {
    if x == u64::MAX {
        x
    } else {
        (x + 1) as u64
    }
}

pub open spec fn age_ms(now: u64, t: u64) -> u64 {
    if now >= t {
        (now - t) as u64
    } else {
        0
    }
}

/// Count a late signal on the completed stream `stream_id` (after a purge). Returns the
/// stream's age, its completion reason, whether this is the first signal of the kind,
/// and the new count; `None` if the stream is not remembered.
pub fn note_completed_response_signal<P>(
    map: &mut CompletedResponseStreamTable<P>,
    stream_id: u32,
    signal: LateSignal,
    now_ms: u64,
) -> (r: Option<(u64, &'static str, bool, u64)>)
    requires
        old(map).wf(),
    ensures
        final(map).wf(),
        r is Some <==> final(map).times().contains_key(stream_id),
        r matches Some((age, reason, first, count)) ==> {
            let before = old(map).values()[stream_id];
            let after = final(map).values()[stream_id];
            &&& old(map).times().contains_key(stream_id)
            &&& lingers(now_ms, old(map).times()[stream_id], COMPLETED_RESPONSE_STREAM_LINGER_MS)
            &&& age == age_ms(now_ms, old(map).times()[stream_id])
            &&& reason == before.completion_reason
            &&& first == (counter_of(before, signal) == 0)
            &&& count == sat_inc(counter_of(before, signal))
            &&& counter_of(after, signal) == count
            &&& forall|s: LateSignal| s != signal ==> counter_of(after, s) == counter_of(before, s)
            &&& after.completion_reason == before.completion_reason
            &&& after.payload == before.payload
        },
{
    purge_completed_response_streams(map, now_ms);
    let (t, cur) = match map.take(stream_id) {
        Some(x) => x,
        None => return None,
    };
    let mut late_payloads = cur.late_payloads;
    let mut duplicate_payload_signals = cur.duplicate_payload_signals;
    let mut late_close_signals = cur.late_close_signals;
    let mut terminal_payload_signals = cur.terminal_payload_signals;
    let mut terminal_close_signals = cur.terminal_close_signals;
    let completion_reason = cur.completion_reason;
    let (first, count) = match signal {
        LateSignal::LatePayload => {
            let f = late_payloads == 0;
            late_payloads = late_payloads.saturating_add(1);
            (f, late_payloads)
        },
        LateSignal::DuplicatePayload => {
            let f = duplicate_payload_signals == 0;
            duplicate_payload_signals = duplicate_payload_signals.saturating_add(1);
            (f, duplicate_payload_signals)
        },
        LateSignal::LateClose => {
            let f = late_close_signals == 0;
            late_close_signals = late_close_signals.saturating_add(1);
            (f, late_close_signals)
        },
        LateSignal::TerminalPayload => {
            let f = terminal_payload_signals == 0;
            terminal_payload_signals = terminal_payload_signals.saturating_add(1);
            (f, terminal_payload_signals)
        },
        LateSignal::TerminalClose => {
            let f = terminal_close_signals == 0;
            terminal_close_signals = terminal_close_signals.saturating_add(1);
            (f, terminal_close_signals)
        },
    };
    map.insert(
        stream_id,
        t,
        CompletedResponseStream {
            payload: cur.payload,
            completion_reason,
            late_payloads,
            duplicate_payload_signals,
            late_close_signals,
            terminal_payload_signals,
            terminal_close_signals,
        },
    );
    Some((now_ms.saturating_sub(t), completion_reason, first, count))
}

/// How a response DATA packet is dispatched, from which per-stream state exists.
#[derive(Clone, Copy, Debug, PartialEq, Eq, Structural)]
pub enum ResponseDataDispatchPlan {
    /// A consumer waits: deliver, creating the reliable stream if missing, over the
    /// stream's route or else the default route.
    Active { create_reliable: bool, use_default_route: bool },
    /// The stream completed: answer from its completed state, pruning stale active state.
    Completed { prune_active_state: bool },
    /// Only stale active state remains: answer from it and prune it.
    Orphaned { use_default_route: bool },
    Unknown,
}

/// Dispatch of a response DATA packet: an active consumer wins, then a completed stream,
/// then leftover reliable state.
pub fn plan_response_data_dispatch(has_consumer: bool, has_reliable: bool, has_route: bool, has_completed: bool) -> (r:
    ResponseDataDispatchPlan)
    ensures
        r == (if has_consumer {
            ResponseDataDispatchPlan::Active { create_reliable: !has_reliable, use_default_route: !has_route }
        } else if has_completed {
            ResponseDataDispatchPlan::Completed { prune_active_state: has_reliable }
        } else if has_reliable {
            ResponseDataDispatchPlan::Orphaned { use_default_route: !has_route }
        } else {
            ResponseDataDispatchPlan::Unknown
        }),
{
    if has_consumer {
        ResponseDataDispatchPlan::Active { create_reliable: !has_reliable, use_default_route: !has_route }
    } else if has_completed {
        ResponseDataDispatchPlan::Completed { prune_active_state: has_reliable }
    } else if has_reliable {
        ResponseDataDispatchPlan::Orphaned { use_default_route: !has_route }
    } else {
        ResponseDataDispatchPlan::Unknown
    }
}

/// How a response ACK is dispatched, from which per-stream state exists.
#[derive(Clone, Copy, Debug, PartialEq, Eq, Structural)]
pub enum ResponseAckDispatchPlan {
    Active,
    Completed { prune_active_state: bool },
    Unknown { prune_active_state: bool },
}

/// Dispatch of a response ACK: to the active reliable stream when a consumer waits, else
/// to the completed stream; leftover reliable state without a consumer is pruned.
pub fn plan_response_ack_dispatch(has_consumer: bool, has_reliable: bool, has_completed: bool) -> (r:
    ResponseAckDispatchPlan)
    ensures
        r == (if has_consumer {
            if has_reliable {
                ResponseAckDispatchPlan::Active
            } else {
                ResponseAckDispatchPlan::Unknown { prune_active_state: false }
            }
        } else if has_completed {
            ResponseAckDispatchPlan::Completed { prune_active_state: has_reliable }
        } else {
            ResponseAckDispatchPlan::Unknown { prune_active_state: has_reliable }
        }),
{
    if has_consumer {
        if has_reliable {
            ResponseAckDispatchPlan::Active
        } else {
            ResponseAckDispatchPlan::Unknown { prune_active_state: false }
        }
    } else if has_completed {
        ResponseAckDispatchPlan::Completed { prune_active_state: has_reliable }
    } else {
        ResponseAckDispatchPlan::Unknown { prune_active_state: has_reliable }
    }
}

/// A transport event of a response stream after its local completion.
#[derive(Clone, Copy, Debug, PartialEq, Eq, Structural)]
pub enum SettlementEvent {
    /// Response payload of this many bytes.
    Payload(usize),
    /// The end-of-stream frame.
    EndOfStream,
    /// The CloseStream message.
    CloseStream,
}

/// Why the transport settlement of a buffered response ended.
#[derive(Clone, Copy, Debug, PartialEq, Eq, Structural)]
pub enum SettlementReason {
    /// Both terminal signals were seen and the transport stayed quiet for the quiet period.
    TerminalQuietPeriodElapsed,
    /// The longest settlement time passed.
    SettlementMaxElapsed,
    /// The stream's event channel closed.
    ResponseChannelClosed,
}

impl SettlementReason {
    pub fn as_str(self) -> (r: &'static str)
        ensures
            self == SettlementReason::TerminalQuietPeriodElapsed ==> r == "terminal_quiet_period_elapsed",
            self == SettlementReason::SettlementMaxElapsed ==> r == "settlement_max_elapsed",
            self == SettlementReason::ResponseChannelClosed ==> r == "response_channel_closed",
    {
        match self {
            SettlementReason::TerminalQuietPeriodElapsed => "terminal_quiet_period_elapsed",
            SettlementReason::SettlementMaxElapsed => "settlement_max_elapsed",
            SettlementReason::ResponseChannelClosed => "response_channel_closed",
        }
    }
}

/// After a buffered response completed locally, its transport is left to settle: the
/// stream stays registered until both terminal signals (end of stream and close) were
/// seen followed by a quiet period, or until the longest settlement time.
#[derive(Clone, Copy, Debug)]
pub struct ResponseSettlement {
    pub start_ms: u64,
    pub last_event_ms: u64,
    pub terminal_payload_signals: u64,
    pub terminal_close_signals: u64,
    pub payload_after_local_completion_events: u64,
    pub payload_after_local_completion_bytes: usize,
}

pub open spec fn sat_sub(a: u64, b: u64) -> u64 {
    if a >= b {
        (a - b) as u64
    } else {
        0
    }
}

pub open spec fn sat_add_u64(a: u64, b: u64) -> u64 {
    if a + b > u64::MAX {
        u64::MAX
    } else {
        (a + b) as u64
    }
}

impl ResponseSettlement {
    /// The moment the settlement must end.
    pub open spec fn deadline(&self) -> u64 {
        sat_add_u64(self.start_ms, BUFFERED_RESPONSE_TRANSPORT_SETTLEMENT_MAX_MS)
    }

    /// Both terminal signals were seen.
    pub open spec fn terminal(&self) -> bool {
        self.terminal_payload_signals > 0 && self.terminal_close_signals > 0
    }

    /// What `check` reports at `now`.
    pub open spec fn outcome_at(&self, now: u64) -> Option<SettlementReason> {
        if self.terminal() && sat_sub(now, self.last_event_ms) >= BUFFERED_RESPONSE_TRANSPORT_SETTLEMENT_QUIET_PERIOD_MS {
            Some(SettlementReason::TerminalQuietPeriodElapsed)
        } else if now >= self.deadline() {
            Some(SettlementReason::SettlementMaxElapsed)
        } else {
            None
        }
    }

    /// Start settling at `now_ms`; a close signal queued before the local completion counts.
    pub fn new(now_ms: u64, initial_terminal_close_signal: bool) -> (r: Self)
        ensures
            r.start_ms == now_ms,
            r.last_event_ms == now_ms,
            r.terminal_payload_signals == 0,
            r.terminal_close_signals == (if initial_terminal_close_signal { 1u64 } else { 0u64 }),
            r.payload_after_local_completion_events == 0,
            r.payload_after_local_completion_bytes == 0,
    {
        ResponseSettlement {
            start_ms: now_ms,
            last_event_ms: now_ms,
            terminal_payload_signals: 0,
            terminal_close_signals: if initial_terminal_close_signal { 1 } else { 0 },
            payload_after_local_completion_events: 0,
            payload_after_local_completion_bytes: 0,
        }
    }

    /// Whether settlement ends at `now_ms`, and why. It always ends once the longest
    /// settlement time has passed.
    pub fn check(&self, now_ms: u64) -> (r: Option<SettlementReason>)
        ensures
            r == self.outcome_at(now_ms),
            now_ms >= self.deadline() ==> r is Some,
    {
        if self.terminal_payload_signals > 0 && self.terminal_close_signals > 0
            && now_ms.saturating_sub(self.last_event_ms) >= BUFFERED_RESPONSE_TRANSPORT_SETTLEMENT_QUIET_PERIOD_MS {
            return Some(SettlementReason::TerminalQuietPeriodElapsed);
        }
        if now_ms >= self.start_ms.saturating_add(BUFFERED_RESPONSE_TRANSPORT_SETTLEMENT_MAX_MS) {
            return Some(SettlementReason::SettlementMaxElapsed);
        }
        None
    }

    /// How long to wait for the next event at `now_ms`: until the deadline, and once both
    /// terminal signals were seen no longer than the rest of the quiet period.
    pub fn wait_budget_ms(&self, now_ms: u64) -> (r: u64)
        ensures
            ({
                let until_max = sat_sub(self.deadline(), now_ms);
                let quiet_left = sat_sub(
                    BUFFERED_RESPONSE_TRANSPORT_SETTLEMENT_QUIET_PERIOD_MS,
                    sat_sub(now_ms, self.last_event_ms),
                );
                r == (if self.terminal() && quiet_left < until_max {
                    quiet_left
                } else {
                    until_max
                })
            }),
    {
        let until_max = self.start_ms.saturating_add(BUFFERED_RESPONSE_TRANSPORT_SETTLEMENT_MAX_MS).saturating_sub(now_ms);
        if self.terminal_payload_signals > 0 && self.terminal_close_signals > 0 {
            let quiet_left = BUFFERED_RESPONSE_TRANSPORT_SETTLEMENT_QUIET_PERIOD_MS.saturating_sub(
                now_ms.saturating_sub(self.last_event_ms),
            );
            if quiet_left < until_max {
                return quiet_left;
            }
        }
        until_max
    }

    /// Record a transport event at `now_ms`. For a terminal signal, returns whether it is
    /// the first of its kind.
    pub fn on_event(&mut self, event: SettlementEvent, now_ms: u64) -> (r: Option<bool>)
        ensures
            final(self).start_ms == old(self).start_ms,
            final(self).last_event_ms == now_ms,
            match event {
                SettlementEvent::Payload(n) => {
                    &&& r is None
                    &&& final(self).terminal_payload_signals == old(self).terminal_payload_signals
                    &&& final(self).terminal_close_signals == old(self).terminal_close_signals
                    &&& n == 0 ==> final(self).payload_after_local_completion_events
                        == old(self).payload_after_local_completion_events
                        && final(self).payload_after_local_completion_bytes
                        == old(self).payload_after_local_completion_bytes
                    &&& n > 0 ==> final(self).payload_after_local_completion_events == sat_inc(
                        old(self).payload_after_local_completion_events,
                    ) && final(self).payload_after_local_completion_bytes == sat_add(
                        old(self).payload_after_local_completion_bytes as int,
                        n as int,
                    )
                },
                SettlementEvent::EndOfStream => {
                    &&& final(self).terminal_payload_signals == sat_inc(old(self).terminal_payload_signals)
                    &&& final(self).terminal_close_signals == old(self).terminal_close_signals
                    &&& r == Some(final(self).terminal_payload_signals == 1)
                    &&& final(self).payload_after_local_completion_events
                        == old(self).payload_after_local_completion_events
                    &&& final(self).payload_after_local_completion_bytes
                        == old(self).payload_after_local_completion_bytes
                },
                SettlementEvent::CloseStream => {
                    &&& final(self).terminal_close_signals == sat_inc(old(self).terminal_close_signals)
                    &&& final(self).terminal_payload_signals == old(self).terminal_payload_signals
                    &&& r == Some(final(self).terminal_close_signals == 1)
                    &&& final(self).payload_after_local_completion_events
                        == old(self).payload_after_local_completion_events
                    &&& final(self).payload_after_local_completion_bytes
                        == old(self).payload_after_local_completion_bytes
                },
            },
    {
        self.last_event_ms = now_ms;
        match event {
            SettlementEvent::Payload(n) => {
                if n > 0 {
                    self.payload_after_local_completion_events = self.payload_after_local_completion_events.saturating_add(
                        1,
                    );
                    self.payload_after_local_completion_bytes = self.payload_after_local_completion_bytes.saturating_add(
                        n,
                    );
                }
                None
            },
            SettlementEvent::EndOfStream => {
                self.terminal_payload_signals = self.terminal_payload_signals.saturating_add(1);
                Some(self.terminal_payload_signals == 1)
            },
            SettlementEvent::CloseStream => {
                self.terminal_close_signals = self.terminal_close_signals.saturating_add(1);
                Some(self.terminal_close_signals == 1)
            },
        }
    }
}

/// Attempts of the client handshake before giving up.
pub const HANDSHAKE_MAX_ATTEMPTS: u32 = 10;

/// Pause before the next attempt after a lost or unexpected reply, in milliseconds.
pub const HANDSHAKE_RETRY_DELAY_MS: u64 = 500;

/// How long to wait for each handshake reply, in milliseconds.
pub const HANDSHAKE_REPLY_TIMEOUT_MS: u64 = 3_000;

/// Why the client handshake failed.
#[derive(Clone, Copy, Debug, PartialEq, Eq, Structural)]
pub enum ClientHandshakeError {
    EmptyRoute,
    Wire(WireError),
    Decode(DecodeError),
    Encode(HandshakeError),
    /// A challenge or ack payload did not decode.
    BadPayload,
    /// Every attempt failed.
    Exhausted,
}

/// What the client does next in the handshake.
#[derive(Debug)]
pub enum HandshakeStep {
    /// Send this packet to the first hop and wait for a reply.
    Send { to: NodeAddr, packet: Vec<u8> },
    /// Wait this long, then start the next attempt.
    RetryAfter { delay_ms: u64 },
    /// The session key is agreed.
    Established(SessionCrypto),
    Failed(ClientHandshakeError),
}

/// Where the client is within one handshake attempt.
#[derive(Debug)]
pub enum HandshakePhase {
    Idle,
    /// HandshakeInit sent; the secret and the announced public key and nonce are kept.
    AwaitChallenge { secret: [u8; 32], pubkey: [u8; 32], nonce: [u8; 32] },
    /// HandshakeInit with the cookie sent.
    AwaitAck { secret: [u8; 32] },
}

/// The client side of the handshake over a route: HandshakeInit, HandshakeChallenge,
/// HandshakeInit with the cookie, HandshakeAck.
#[derive(Debug)]
pub struct ClientHandshake {
    pub session_id: u32,
    pub route: Route,
    pub first_hop: NodeAddr,
    pub attempt: u32,
    pub phase: HandshakePhase,
}

/// The wire packet of a HandshakeInit from the client: routed from the first hop and
/// announcing the public key, nonce, the `udp-native` transport and, when answering a
/// challenge, its cookie.
pub open spec fn hello_packet(
    route: Seq<NodeAddr>,
    session_id: u32,
    pubkey: Seq<u8>,
    nonce: Seq<u8>,
    cookie: Option<Seq<u8>>,
) -> Seq<u8> {
    packet_bytes(
        routing_bytes(0, route),
        tunnel_bytes(handshake_header(MsgType::HandshakeInit, session_id), init_payload_bytes(pubkey, nonce, udp_native(), cookie)),
    )
}

/// The tunnel message inside a wire packet, read as the client reads replies.
pub open spec fn reply_message(data: Seq<u8>) -> Result<(Header, Seq<u8>), ClientHandshakeError> {
    match parse_packet(data) {
        Err(e) => Err(ClientHandshakeError::Wire(e)),
        Ok((_, _, start)) => match parse_tunnel(data.skip(start)) {
            Err(e) => Err(ClientHandshakeError::Decode(e)),
            Ok((h, p)) => Ok((h, p)),
        },
    }
}

impl ClientHandshake {
    pub open spec fn wf(&self) -> bool {
        self.route.hops@.len() > 0 && self.first_hop == self.route.hops@[0]
    }

    /// The routing header of the route fits the packet's length field.
    pub open spec fn fits(&self) -> bool {
        routing_bytes(0, self.route.hops@).len() <= u16::MAX
    }

    /// A handshake over `route` with session id 1, before the first attempt.
    pub fn new(route: Route) -> (r: Result<Self, ClientHandshakeError>)
        ensures
            route.hops@.len() == 0 ==> r == Err::<Self, ClientHandshakeError>(ClientHandshakeError::EmptyRoute),
            route.hops@.len() > 0 ==> (r matches Ok(h) && h.wf() && h.route == route && h.session_id == 1
                && h.attempt == 0 && h.phase is Idle),
    {
        let first_hop = match route.first_hop() {
            Some(h) => h,
            None => return Err(ClientHandshakeError::EmptyRoute),
        };
        Ok(ClientHandshake { session_id: 1, route, first_hop, attempt: 0, phase: HandshakePhase::Idle })
    }

    fn send_plaintext(&self, msg: &TunnelMessage) -> (r: HandshakeStep)
        requires
            self.wf(),
            msg.header.version == PROTOCOL_VERSION,
        ensures
            self.fits() ==> r == (HandshakeStep::Send {
                to: self.first_hop,
                packet: r->packet,
            }) && r->packet@ == packet_bytes(
                routing_bytes(0, self.route.hops@),
                tunnel_bytes(msg.header, msg.payload@),
            ),
            !self.fits() ==> r == HandshakeStep::Failed(ClientHandshakeError::Wire(WireError::RoutingHeaderTooLarge)),
    {
        let bytes = match encode_plaintext(msg) {
            Ok(b) => b,
            Err(e) => return HandshakeStep::Failed(ClientHandshakeError::Encode(e)),
        };
        let routing = RoutingInfo { hop_index: 0, route: self.route.duplicate() };
        match build_handshake_packet(&routing, bytes) {
            Ok(packet) => HandshakeStep::Send { to: self.first_hop, packet },
            Err(e) => HandshakeStep::Failed(ClientHandshakeError::Wire(e)),
        }
    }

    /// Start the next attempt: a fresh keypair and nonce in a HandshakeInit sent to the
    /// first hop; after the last attempt, give up.
    pub fn begin_attempt(&mut self) -> (r: HandshakeStep)
        requires
            old(self).wf(),
        ensures
            final(self).wf(),
            final(self).route == old(self).route,
            final(self).session_id == old(self).session_id,
            old(self).attempt >= HANDSHAKE_MAX_ATTEMPTS ==> r == HandshakeStep::Failed(ClientHandshakeError::Exhausted),
            old(self).attempt < HANDSHAKE_MAX_ATTEMPTS ==> final(self).attempt == old(self).attempt + 1,
            old(self).attempt < HANDSHAKE_MAX_ATTEMPTS && !old(self).fits() ==> r == HandshakeStep::Failed(
                ClientHandshakeError::Wire(WireError::RoutingHeaderTooLarge),
            ),
            old(self).attempt < HANDSHAKE_MAX_ATTEMPTS && old(self).fits() ==> (r matches HandshakeStep::Send {
                to,
                packet,
            } && to == old(self).first_hop && (final(self).phase matches HandshakePhase::AwaitChallenge {
                secret,
                pubkey,
                nonce,
            } && pubkey@ == x25519_public(secret@) && packet@ == hello_packet(
                old(self).route.hops@,
                old(self).session_id,
                pubkey@,
                nonce@,
                None,
            ))),
    {
        if self.attempt >= HANDSHAKE_MAX_ATTEMPTS {
            return HandshakeStep::Failed(ClientHandshakeError::Exhausted);
        }
        self.attempt = self.attempt + 1;
        let (init_msg, secret, pubkey) = build_handshake_init(self.session_id);
        let nonce = match crate::handshake::decode_init_payload(init_msg.payload.as_slice()) {
            Some(p) => p.client_nonce,
            None => return HandshakeStep::Failed(ClientHandshakeError::BadPayload),
        };
        let step = self.send_plaintext(&init_msg);
        if let HandshakeStep::Send { .. } = step {
            self.phase = HandshakePhase::AwaitChallenge { secret, pubkey, nonce };
        }
        step
    }

    /// No reply arrived in time (or receiving failed): retry after a pause.
    pub fn on_timeout(&mut self) -> (r: HandshakeStep)
        requires
            old(self).wf(),
        ensures
            final(self).wf(),
            final(self).route == old(self).route,
            final(self).attempt == old(self).attempt,
            final(self).session_id == old(self).session_id,
            (final(self).phase is Idle),
            r == (HandshakeStep::RetryAfter { delay_ms: HANDSHAKE_RETRY_DELAY_MS }),
    {
        self.phase = HandshakePhase::Idle;
        HandshakeStep::RetryAfter { delay_ms: HANDSHAKE_RETRY_DELAY_MS }
    }

    /// Handle a reply. An unreadable packet ends the handshake; a message of another
    /// version or of an unexpected type is answered by a retry; a challenge is answered by
    /// the init with its cookie; an ack establishes the session with the key derived from
    /// the exit's public key and the attempt's secret.
    pub fn on_packet(&mut self, data: &[u8]) -> (r: HandshakeStep)
        requires
            old(self).wf(),
        ensures
            final(self).wf(),
            final(self).route == old(self).route,
            final(self).attempt == old(self).attempt,
            final(self).session_id == old(self).session_id,
            (old(self).phase is Idle) ==> r == (HandshakeStep::RetryAfter { delay_ms: 0 }),
            !(old(self).phase is Idle) ==> match reply_message(data@) {
                Err(e) => r == HandshakeStep::Failed(e),
                Ok((h, p)) => {
                    &&& h.version != PROTOCOL_VERSION ==> r == (HandshakeStep::RetryAfter {
                        delay_ms: HANDSHAKE_RETRY_DELAY_MS,
                    })
                    &&& h.version == PROTOCOL_VERSION ==> match old(self).phase {
                        HandshakePhase::AwaitChallenge { secret, pubkey, nonce } => if h.msg_type
                            != MsgType::HandshakeChallenge {
                            r == (HandshakeStep::RetryAfter { delay_ms: HANDSHAKE_RETRY_DELAY_MS })
                        } else if p.len() < 32 {
                            r == HandshakeStep::Failed(ClientHandshakeError::BadPayload)
                        } else if !old(self).fits() {
                            r == HandshakeStep::Failed(ClientHandshakeError::Wire(WireError::RoutingHeaderTooLarge))
                        } else {
                            &&& r matches HandshakeStep::Send { to, packet } && to == old(self).first_hop
                                && packet@ == hello_packet(
                                old(self).route.hops@,
                                old(self).session_id,
                                pubkey@,
                                nonce@,
                                Some(p.subrange(0, 32)),
                            )
                            &&& final(self).phase == (HandshakePhase::AwaitAck { secret })
                        },
                        HandshakePhase::AwaitAck { secret } => if h.msg_type != MsgType::HandshakeAck {
                            r == (HandshakeStep::RetryAfter { delay_ms: HANDSHAKE_RETRY_DELAY_MS })
                        } else {
                            match parse_ack_payload(p) {
                                None => r == HandshakeStep::Failed(ClientHandshakeError::BadPayload),
                                Some((pk, _, _)) => r matches HandshakeStep::Established(c) && c.key@ == session_key(
                                    secret@,
                                    pk,
                                ) && c.send_seq == 1 && c.recv_replay.highest == 0 && c.wf(),
                            }
                        },
                        HandshakePhase::Idle => true,
                    }
                },
            },
    {
        let mut phase = HandshakePhase::Idle;
        std::mem::swap(&mut phase, &mut self.phase);
        match phase {
            HandshakePhase::Idle => HandshakeStep::RetryAfter { delay_ms: 0 },
            HandshakePhase::AwaitChallenge { secret, pubkey, nonce } => {
                let msg = match read_reply(data) {
                    Ok(m) => m,
                    Err(e) => return HandshakeStep::Failed(e),
                };
                if msg.header.version != PROTOCOL_VERSION || msg.header.msg_type != MsgType::HandshakeChallenge {
                    return HandshakeStep::RetryAfter { delay_ms: HANDSHAKE_RETRY_DELAY_MS };
                }
                let challenge = match decode_challenge_payload(msg.payload.as_slice()) {
                    Some(c) => c,
                    None => return HandshakeStep::Failed(ClientHandshakeError::BadPayload),
                };
                let init = build_handshake_init_with_cookie(self.session_id, pubkey, nonce, challenge.cookie);
                let step = self.send_plaintext(&init);
                if let HandshakeStep::Send { .. } = step {
                    self.phase = HandshakePhase::AwaitAck { secret };
                }
                step
            },
            HandshakePhase::AwaitAck { secret } => {
                let msg = match read_reply(data) {
                    Ok(m) => m,
                    Err(e) => return HandshakeStep::Failed(e),
                };
                if msg.header.version != PROTOCOL_VERSION || msg.header.msg_type != MsgType::HandshakeAck {
                    return HandshakeStep::RetryAfter { delay_ms: HANDSHAKE_RETRY_DELAY_MS };
                }
                let ack = match decode_ack_payload(msg.payload.as_slice()) {
                    Some(a) => a,
                    None => return HandshakeStep::Failed(ClientHandshakeError::BadPayload),
                };
                let key = derive_session_key_from_ack(&secret, &ack);
                HandshakeStep::Established(SessionCrypto::new(key))
            },
        }
    }
}

fn read_reply(data: &[u8]) -> (r: Result<TunnelMessage, ClientHandshakeError>)
    ensures
        match (r, reply_message(data@)) {
            (Ok(m), Ok((h, p))) => m.header == h && m.payload@ == p,
            (Err(e), Err(f)) => e == f,
            _ => false,
        },
{
    let (_routing, inner) = match parse_routing_header(data) {
        Ok(v) => v,
        Err(e) => return Err(ClientHandshakeError::Wire(e)),
    };
    match decode(inner) {
        Ok(m) => Ok(m),
        Err(e) => Err(ClientHandshakeError::Decode(e)),
    }
}


} // verus!
