//! Integer bookkeeping of route and transport quality: counts, last-event times and
//! exponential moving averages of observed latencies, sizes and rates. Scoring routes
//! from these figures is floating-point work done by the route store of the node.
use crate::addr::Protocol;
use vstd::prelude::*;

verus! {

/// Weight of the previous value in the moving averages (out of 10).
pub const EMA_PREV_WEIGHT: u128 = 7;

/// Weight of the new sample in the moving averages (out of 10).
pub const EMA_SAMPLE_WEIGHT: u128 = 3;

/// A transport endpoint kind: protocol and port.
#[derive(Debug, Clone, Copy, PartialEq, Eq, Hash, Structural)]
pub struct TransportKey {
    pub protocol: Protocol,
    pub port: u16,
}

/// Outcomes seen on one transport.
#[derive(Debug, Clone, Copy, PartialEq, Eq, Structural)]
pub struct TransportStats {
    pub success_count: u64,
    pub failure_count: u64,
    pub recent_rtt_ms: Option<u32>,
    pub last_success_at_ms: Option<u64>,
    pub last_failure_at_ms: Option<u64>,
}

/// Why a route attempt failed.
#[derive(Debug, Clone, Copy, PartialEq, Eq, Structural)]
pub enum RouteFailureKind {
    Timeout,
    Unreachable,
    Refused,
    ProtocolMismatch,
    Congestion,
    Unknown,
}

/// One request over a route as the client saw it.
#[derive(Debug, Clone, Copy, PartialEq, Eq, Structural)]
pub struct LocalRouteObservation {
    pub success: bool,
    pub status_code: Option<u16>,
    pub ttfb_ms: Option<u64>,
    pub total_ms: u64,
    pub response_bytes: usize,
}

/// What the exit reports about one response stream.
#[derive(Debug, Clone, Copy, PartialEq, Eq, Structural)]
pub struct ResponseQualityFeedback {
    pub stream_id: u32,
    pub route_len: u8,
    pub resp_bytes: u64,
    pub frames_sent: u64,
    pub stream_duration_ms: u64,
    pub first_target_byte_ms: Option<u64>,
    pub first_overlay_send_ms: Option<u64>,
    pub ack_latency_ms_avg: Option<u64>,
    pub ack_latency_ms_p50: Option<u64>,
    pub ack_latency_ms_p95: Option<u64>,
    pub ack_latency_ms_max: Option<u64>,
    pub total_retransmits: u64,
    pub retransmit_rate_ppm: u32,
    pub window_wait_events: u64,
    pub window_wait_total_ms: u64,
    pub window_wait_max_ms: u64,
    pub http_code: Option<u16>,
}

/// Quality figures of one route from local observations and exit feedback.
#[derive(Debug, Clone, Copy, PartialEq, Eq, Structural)]
pub struct RouteQualityStats {
    pub local_samples: u64,
    pub feedback_samples: u64,
    pub success_count: u64,
    pub failure_count: u64,
    pub last_success_at_ms: Option<u64>,
    pub last_failure_at_ms: Option<u64>,
    pub last_feedback_at_ms: Option<u64>,
    pub local_ttfb_ms: Option<u64>,
    pub local_total_ms: Option<u64>,
    pub response_bytes: Option<u64>,
    pub ack_latency_ms_avg: Option<u64>,
    pub ack_latency_ms_p95: Option<u64>,
    pub retransmit_rate_ppm: Option<u32>,
    pub window_wait_total_ms: Option<u64>,
    pub window_wait_ratio_ppm: Option<u32>,
    pub overlay_first_send_gap_ms: Option<u64>,
    pub last_http_code: Option<u16>,
}

pub open spec fn inc_by(x: u64, n: u64) -> u64 {
    if x + n > u64::MAX {
        u64::MAX
    } else {
        (x + n) as u64
    }
}

pub open spec fn dec1(x: u64) -> u64 {
    if x > 0 {
        (x - 1) as u64
    } else {
        0
    }
}

/// The moving average after a sample: the sample itself at first, then seven tenths of
/// the previous value plus three tenths of the sample, rounded down.
pub open spec fn ema(prev: Option<u64>, sample: u64) -> u64 {
    match prev {
        None => sample,
        Some(p) => ((p * 7 + sample * 3) / 10) as u64,
    }
}

pub open spec fn ema32(prev: Option<u32>, sample: u32) -> u32 {
    match prev {
        None => sample,
        Some(p) => ((p * 7 + sample * 3) / 10) as u32,
    }
}

/// Retransmissions per million frames sent, rounded half up and capped at a million;
/// 0 when nothing was sent.
pub open spec fn retransmit_rate_ppm_spec(retransmits: u64, frames_sent: u64) -> int {
    if frames_sent == 0 {
        0
    } else {
        let q = (retransmits * 2_000_000 + frames_sent) / (2 * frames_sent);
        if q > 1_000_000 {
            1_000_000
        } else {
            q
        }
    }
}

/// The retransmission rate of a response stream in parts per million.
pub fn retransmit_rate_ppm(retransmits: u64, frames_sent: u64) -> (r: u32)
    ensures
        r == retransmit_rate_ppm_spec(retransmits, frames_sent),
{
    if frames_sent == 0 {
        return 0;
    }
    let q: u128 = ((retransmits as u128) * 2_000_000 + frames_sent as u128) / (2 * frames_sent as u128);
    if q > 1_000_000 {
        1_000_000
    } else {
        q as u32
    }
}

/// Fold a sample into a 64-bit moving average.
pub fn ema_u64(slot: &mut Option<u64>, sample: u64)
    ensures
        *final(slot) == Some(ema(*old(slot), sample)),
{
    let v = match *slot {
        None => sample,
        Some(prev) => {
            let mixed = ((prev as u128) * EMA_PREV_WEIGHT + (sample as u128) * EMA_SAMPLE_WEIGHT) / (EMA_PREV_WEIGHT
                + EMA_SAMPLE_WEIGHT);
            assert(mixed <= u64::MAX) by (nonlinear_arith)
                requires
                    mixed == (prev * 7 + sample * 3) / 10,
                    prev <= u64::MAX,
                    sample <= u64::MAX,
            ;
            mixed as u64
        },
    };
    *slot = Some(v);
}

/// Fold a sample into a 32-bit moving average.
pub fn ema_u32(slot: &mut Option<u32>, sample: u32)
    ensures
        *final(slot) == Some(ema32(*old(slot), sample)),
{
    let v = match *slot {
        None => sample,
        Some(prev) => {
            let mixed = ((prev as u128) * EMA_PREV_WEIGHT + (sample as u128) * EMA_SAMPLE_WEIGHT) / (EMA_PREV_WEIGHT
                + EMA_SAMPLE_WEIGHT);
            assert(mixed <= u32::MAX) by (nonlinear_arith)
                requires
                    mixed == (prev * 7 + sample * 3) / 10,
                    prev <= u32::MAX,
                    sample <= u32::MAX,
            ;
            mixed as u32
        },
    };
    *slot = Some(v);
}

/// A moving average lies between the previous value and the sample.
pub proof fn lemma_ema_between(p: u64, sample: u64)
    ensures
        (if p <= sample { p } else { sample }) <= ema(Some(p), sample) <= (if p <= sample { sample } else { p }),
{
    assert((if p <= sample { p } else { sample }) * 10 <= p * 7 + sample * 3 <= (if p <= sample {
        sample
    } else {
        p
    }) * 10) by (nonlinear_arith);
}

impl Default for TransportStats {
    fn default() -> (r: Self)
        ensures
            r == (TransportStats {
                success_count: 0,
                failure_count: 0,
                recent_rtt_ms: None,
                last_success_at_ms: None,
                last_failure_at_ms: None,
            }),
    {
        TransportStats {
            success_count: 0,
            failure_count: 0,
            recent_rtt_ms: None,
            last_success_at_ms: None,
            last_failure_at_ms: None,
        }
    }
}

impl TransportStats {
    /// A success at `now_ms`: one more success, one failure forgiven, the latest round
    /// trip (capped to 32 bits) kept when measured.
    pub fn record_success(&mut self, rtt_ms: Option<u64>, now_ms: u64)
        ensures
            final(self).success_count == inc_by(old(self).success_count, 1),
            final(self).failure_count == dec1(old(self).failure_count),
            final(self).last_success_at_ms == Some(now_ms),
            final(self).last_failure_at_ms == old(self).last_failure_at_ms,
            final(self).recent_rtt_ms == (match rtt_ms {
                Some(r) => Some(if r > u32::MAX { u32::MAX } else { r as u32 }),
                None => old(self).recent_rtt_ms,
            }),
    {
        self.success_count = self.success_count.saturating_add(1);
        self.last_success_at_ms = Some(now_ms);
        if let Some(r) = rtt_ms {
            self.recent_rtt_ms = Some(if r > u32::MAX as u64 { u32::MAX } else { r as u32 });
        }
        if self.failure_count > 0 {
            self.failure_count = self.failure_count - 1;
        }
    }

    /// A success of a route through this transport at `now_ms`: one more success, the
    /// latest round trip (capped to 32 bits) kept when measured; a failure is forgiven
    /// only when the previous success already came after the previous failure.
    pub fn record_route_success(&mut self, rtt_ms: Option<u64>, now_ms: u64)
        ensures
            final(self).success_count == inc_by(old(self).success_count, 1),
            final(self).failure_count == (match (old(self).last_failure_at_ms, old(self).last_success_at_ms) {
                (Some(f), Some(s)) => if s > f {
                    dec1(old(self).failure_count)
                } else {
                    old(self).failure_count
                },
                _ => old(self).failure_count,
            }),
            final(self).last_success_at_ms == Some(now_ms),
            final(self).last_failure_at_ms == old(self).last_failure_at_ms,
            final(self).recent_rtt_ms == (match rtt_ms {
                Some(r) => Some(if r > u32::MAX { u32::MAX } else { r as u32 }),
                None => old(self).recent_rtt_ms,
            }),
    {
        self.success_count = self.success_count.saturating_add(1);
        if let (Some(f), Some(s)) = (self.last_failure_at_ms, self.last_success_at_ms) {
            if s > f && self.failure_count > 0 {
                self.failure_count = self.failure_count - 1;
            }
        }
        self.last_success_at_ms = Some(now_ms);
        if let Some(r) = rtt_ms {
            self.recent_rtt_ms = Some(if r > u32::MAX as u64 { u32::MAX } else { r as u32 });
        }
    }

    /// A failure at `now_ms`: one more failure, six for a protocol mismatch.
    pub fn record_failure(&mut self, kind: RouteFailureKind, now_ms: u64)
        ensures
            final(self).failure_count == (if kind == RouteFailureKind::ProtocolMismatch {
                inc_by(inc_by(old(self).failure_count, 1), 5)
            } else {
                inc_by(old(self).failure_count, 1)
            }),
            final(self).success_count == old(self).success_count,
            final(self).last_failure_at_ms == Some(now_ms),
            final(self).last_success_at_ms == old(self).last_success_at_ms,
            final(self).recent_rtt_ms == old(self).recent_rtt_ms,
    {
        self.failure_count = self.failure_count.saturating_add(1);
        self.last_failure_at_ms = Some(now_ms);
        if kind == RouteFailureKind::ProtocolMismatch {
            self.failure_count = self.failure_count.saturating_add(5);
        }
    }
}

impl Default for RouteQualityStats {
    fn default() -> (r: Self)
        ensures
            r == zero_quality(),
    {
        RouteQualityStats {
            local_samples: 0,
            feedback_samples: 0,
            success_count: 0,
            failure_count: 0,
            last_success_at_ms: None,
            last_failure_at_ms: None,
            last_feedback_at_ms: None,
            local_ttfb_ms: None,
            local_total_ms: None,
            response_bytes: None,
            ack_latency_ms_avg: None,
            ack_latency_ms_p95: None,
            retransmit_rate_ppm: None,
            window_wait_total_ms: None,
            window_wait_ratio_ppm: None,
            overlay_first_send_gap_ms: None,
            last_http_code: None,
        }
    }
}

pub open spec fn zero_quality() -> RouteQualityStats {
    RouteQualityStats {
        local_samples: 0,
        feedback_samples: 0,
        success_count: 0,
        failure_count: 0,
        last_success_at_ms: None,
        last_failure_at_ms: None,
        last_feedback_at_ms: None,
        local_ttfb_ms: None,
        local_total_ms: None,
        response_bytes: None,
        ack_latency_ms_avg: None,
        ack_latency_ms_p95: None,
        retransmit_rate_ppm: None,
        window_wait_total_ms: None,
        window_wait_ratio_ppm: None,
        overlay_first_send_gap_ms: None,
        last_http_code: None,
    }
}

/// Waiting time as parts per million of the stream's duration, capped to 32 bits.
pub open spec fn wait_ratio_ppm(wait_ms: u64, duration_ms: u64) -> u32 {
    let r = (wait_ms * 1_000_000) / (duration_ms as int);
    if r > u32::MAX {
        u32::MAX
    } else {
        r as u32
    }
}

impl RouteQualityStats {
    /// Fold in a local observation made at `now_ms`.
    pub fn record_local_observation(&mut self, sample: &LocalRouteObservation, now_ms: u64)
        ensures
            final(self).local_samples == inc_by(old(self).local_samples, 1),
            final(self).last_http_code == sample.status_code,
            final(self).local_total_ms == Some(ema(old(self).local_total_ms, sample.total_ms)),
            final(self).response_bytes == Some(ema(old(self).response_bytes, sample.response_bytes as u64)),
            final(self).local_ttfb_ms == (match sample.ttfb_ms {
                Some(t) => Some(ema(old(self).local_ttfb_ms, t)),
                None => old(self).local_ttfb_ms,
            }),
            sample.success ==> final(self).success_count == inc_by(old(self).success_count, 1) && final(self).last_success_at_ms == Some(now_ms) && final(self).failure_count == dec1(old(self).failure_count)
                && final(self).last_failure_at_ms == old(self).last_failure_at_ms,
            !sample.success ==> final(self).failure_count == inc_by(old(self).failure_count, 1) && final(self).last_failure_at_ms == Some(now_ms) && final(self).success_count == old(self).success_count
                && final(self).last_success_at_ms == old(self).last_success_at_ms,
            final(self).feedback_samples == old(self).feedback_samples,
            final(self).last_feedback_at_ms == old(self).last_feedback_at_ms,
            final(self).ack_latency_ms_avg == old(self).ack_latency_ms_avg,
            final(self).ack_latency_ms_p95 == old(self).ack_latency_ms_p95,
            final(self).retransmit_rate_ppm == old(self).retransmit_rate_ppm,
            final(self).window_wait_total_ms == old(self).window_wait_total_ms,
            final(self).window_wait_ratio_ppm == old(self).window_wait_ratio_ppm,
            final(self).overlay_first_send_gap_ms == old(self).overlay_first_send_gap_ms,
    {
        self.local_samples = self.local_samples.saturating_add(1);
        self.last_http_code = sample.status_code;
        ema_u64(&mut self.local_total_ms, sample.total_ms);
        ema_u64(&mut self.response_bytes, sample.response_bytes as u64);
        if let Some(t) = sample.ttfb_ms {
            ema_u64(&mut self.local_ttfb_ms, t);
        }
        if sample.success {
            self.success_count = self.success_count.saturating_add(1);
            self.last_success_at_ms = Some(now_ms);
            if self.failure_count > 0 {
                self.failure_count = self.failure_count - 1;
            }
        } else {
            self.failure_count = self.failure_count.saturating_add(1);
            self.last_failure_at_ms = Some(now_ms);
        }
    }

    /// Fold in the exit's feedback on a response, received at `now_ms`.
    pub fn record_feedback(&mut self, feedback: &ResponseQualityFeedback, now_ms: u64)
        ensures
            final(self).feedback_samples == inc_by(old(self).feedback_samples, 1),
            final(self).last_feedback_at_ms == Some(now_ms),
            final(self).last_http_code == (if feedback.http_code is Some {
                feedback.http_code
            } else {
                old(self).last_http_code
            }),
            final(self).response_bytes == Some(ema(old(self).response_bytes, feedback.resp_bytes)),
            final(self).ack_latency_ms_avg == (match feedback.ack_latency_ms_avg {
                Some(v) => Some(ema(old(self).ack_latency_ms_avg, v)),
                None => old(self).ack_latency_ms_avg,
            }),
            final(self).ack_latency_ms_p95 == (match feedback.ack_latency_ms_p95 {
                Some(v) => Some(ema(old(self).ack_latency_ms_p95, v)),
                None => old(self).ack_latency_ms_p95,
            }),
            final(self).window_wait_total_ms == Some(ema(old(self).window_wait_total_ms, feedback.window_wait_total_ms)),
            final(self).retransmit_rate_ppm == Some(
                ema32(
                    old(self).retransmit_rate_ppm,
                    if feedback.retransmit_rate_ppm <= 1_000_000 {
                        feedback.retransmit_rate_ppm
                    } else {
                        1_000_000
                    },
                ),
            ),
            final(self).window_wait_ratio_ppm == (if feedback.stream_duration_ms > 0 {
                Some(
                    ema32(
                        old(self).window_wait_ratio_ppm,
                        wait_ratio_ppm(feedback.window_wait_total_ms, feedback.stream_duration_ms),
                    ),
                )
            } else {
                old(self).window_wait_ratio_ppm
            }),
            final(self).overlay_first_send_gap_ms == (match (
                feedback.first_target_byte_ms,
                feedback.first_overlay_send_ms,
            ) {
                (Some(t), Some(o)) => Some(
                    ema(old(self).overlay_first_send_gap_ms, if o >= t { (o - t) as u64 } else { 0 }),
                ),
                _ => old(self).overlay_first_send_gap_ms,
            }),
            final(self).local_samples == old(self).local_samples,
            final(self).success_count == old(self).success_count,
            final(self).failure_count == old(self).failure_count,
            final(self).last_success_at_ms == old(self).last_success_at_ms,
            final(self).last_failure_at_ms == old(self).last_failure_at_ms,
            final(self).local_ttfb_ms == old(self).local_ttfb_ms,
            final(self).local_total_ms == old(self).local_total_ms,
    {
        self.feedback_samples = self.feedback_samples.saturating_add(1);
        self.last_feedback_at_ms = Some(now_ms);
        if feedback.http_code.is_some() {
            self.last_http_code = feedback.http_code;
        }
        ema_u64(&mut self.response_bytes, feedback.resp_bytes);
        if let Some(v) = feedback.ack_latency_ms_avg {
            ema_u64(&mut self.ack_latency_ms_avg, v);
        }
        if let Some(v) = feedback.ack_latency_ms_p95 {
            ema_u64(&mut self.ack_latency_ms_p95, v);
        }
        ema_u64(&mut self.window_wait_total_ms, feedback.window_wait_total_ms);
        let rate = if feedback.retransmit_rate_ppm <= 1_000_000 {
            feedback.retransmit_rate_ppm
        } else {
            1_000_000
        };
        ema_u32(&mut self.retransmit_rate_ppm, rate);
        if feedback.stream_duration_ms > 0 {
            let ratio = ((feedback.window_wait_total_ms as u128) * 1_000_000u128) / (feedback.stream_duration_ms as u128);
            let ratio_ppm: u32 = if ratio > u32::MAX as u128 {
                u32::MAX
            } else {
                ratio as u32
            };
            ema_u32(&mut self.window_wait_ratio_ppm, ratio_ppm);
        }
        if let (Some(t), Some(o)) = (feedback.first_target_byte_ms, feedback.first_overlay_send_ms) {
            ema_u64(&mut self.overlay_first_send_gap_ms, o.saturating_sub(t));
        }
    }
}

} // verus!
