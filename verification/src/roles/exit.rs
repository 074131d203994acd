//! Decisions of the exit node about response streams: window size, retransmit
//! timeouts, pacing and in-flight discipline.
use crate::stream_reliable::AckLatencySummary;
use vstd::prelude::*;

verus! {

pub const MIN_EXIT_RESPONSE_WINDOW_FRAMES: usize = 8;
pub const MAX_EXIT_RESPONSE_WINDOW_FRAMES: usize = 256;
pub const EXIT_RESPONSE_RETRANSMIT_TIMEOUT_MIN_MS: u64 = 50;
pub const EXIT_RESPONSE_RETRANSMIT_TIMEOUT_MAX_MS: u64 = 1000;
pub const DEFAULT_EXIT_RESPONSE_PACING_BOOTSTRAP_RTT_MS: u64 = 200;
pub const DEFAULT_EXIT_RESPONSE_PACING_MIN_INTERVAL_MS: u64 = 1;
pub const DEFAULT_EXIT_RESPONSE_INFLIGHT_DISCIPLINE_MIN_CAP_FRAMES: usize = 40;
pub const EXIT_RESPONSE_INFLIGHT_DISCIPLINE_REDUCE_STEP_FRAMES: usize = 4;
pub const EXIT_RESPONSE_INFLIGHT_DISCIPLINE_RESTORE_STEP_FRAMES: usize = 4;
pub const EXIT_RESPONSE_INFLIGHT_DISCIPLINE_STALL_PRESSURE_MS: u64 = 24;
pub const EXIT_RESPONSE_INFLIGHT_DISCIPLINE_STALL_SEVERE_MS: u64 = 96;
pub const EXIT_RESPONSE_INFLIGHT_DISCIPLINE_RESTORE_STREAK_SAMPLES: u32 = 3;
pub const EXIT_RESPONSE_INFLIGHT_DISCIPLINE_RESTORE_HEADROOM_FRAMES: usize = 4;
pub const EXIT_RESPONSE_INFLIGHT_DISCIPLINE_MODERATE_PRESSURE_STREAK_SAMPLES: u32 = 2;
pub const EXIT_RESPONSE_INFLIGHT_DISCIPLINE_SEVERE_PRESSURE_STREAK_SAMPLES: u32 = 2;

pub open spec fn max_u64(a: u64, b: u64) -> u64 {
    if a >= b {
        a
    } else {
        b
    }
}

/// The first of three optional values that is present.
pub open spec fn first_present(a: Option<u64>, b: Option<u64>, c: Option<u64>) -> Option<u64> {
    if a is Some {
        a
    } else if b is Some {
        b
    } else {
        c
    }
}

/// The value of `o` when it is present and positive, `fallback` otherwise.
pub open spec fn positive_or(o: Option<u64>, fallback: u64) -> u64 {
    match o {
        Some(v) => if v > 0 {
            v
        } else {
            fallback
        },
        None => fallback,
    }
}

fn first_positive_or(a: Option<u64>, b: Option<u64>, c: Option<u64>, fallback: u64) -> (r: u64)
    ensures
        r == positive_or(first_present(a, b, c), fallback),
{
    let first = match a {
        Some(v) => Some(v),
        None => match b {
            Some(v) => Some(v),
            None => c,
        },
    };
    match first {
        Some(v) => if v > 0 {
            v
        } else {
            fallback
        },
        None => fallback,
    }
}

/// The response window, clamped to `8..=256` frames.
pub fn clamp_response_window_frames(frames: usize) -> (r: usize)
    ensures
        r == (if frames < MIN_EXIT_RESPONSE_WINDOW_FRAMES {
            MIN_EXIT_RESPONSE_WINDOW_FRAMES
        } else if frames > MAX_EXIT_RESPONSE_WINDOW_FRAMES {
            MAX_EXIT_RESPONSE_WINDOW_FRAMES
        } else {
            frames
        }),
{
    if frames < MIN_EXIT_RESPONSE_WINDOW_FRAMES {
        MIN_EXIT_RESPONSE_WINDOW_FRAMES
    } else if frames > MAX_EXIT_RESPONSE_WINDOW_FRAMES {
        MAX_EXIT_RESPONSE_WINDOW_FRAMES
    } else {
        frames
    }
}

/// Round-trip estimate for retransmit timing: the median, else the average, else the
/// 95th percentile; a missing or zero estimate falls back to the bootstrap RTT (at least 1).
pub fn response_retransmit_base_rtt_ms(summary: AckLatencySummary, bootstrap_rtt_ms: u64) -> (r: u64)
    ensures
        r == positive_or(
            first_present(summary.p50_ms, summary.avg_ms, summary.p95_ms),
            max_u64(bootstrap_rtt_ms, 1),
        ),
        r > 0,
{
    let fallback = if bootstrap_rtt_ms > 1 { bootstrap_rtt_ms } else { 1 };
    first_positive_or(summary.p50_ms, summary.avg_ms, summary.p95_ms, fallback)
}

/// Retransmit backoff factor in quarters: 1.5 for a first send, 2.0 after one
/// retransmission, then 2.5 growing by 0.25 per retransmission up to 3.5.
pub open spec fn retransmit_factor_quarters(retransmit_count: u64) -> u64 {
    if retransmit_count == 0 {
        6
    } else if retransmit_count == 1 {
        8
    } else if retransmit_count - 2 >= 4 {
        14
    } else {
        (10 + retransmit_count - 2) as u64
    }
}

/// `rtt * factor` rounded half up, clamped to `50..=1000` ms.
pub open spec fn retransmit_timeout_spec(rtt_ms: u64, retransmit_count: u64) -> u64 {
    let t = (rtt_ms * retransmit_factor_quarters(retransmit_count) + 2) / 4;
    if t < EXIT_RESPONSE_RETRANSMIT_TIMEOUT_MIN_MS {
        EXIT_RESPONSE_RETRANSMIT_TIMEOUT_MIN_MS
    } else if t > EXIT_RESPONSE_RETRANSMIT_TIMEOUT_MAX_MS {
        EXIT_RESPONSE_RETRANSMIT_TIMEOUT_MAX_MS
    } else {
        t as u64
    }
}

/// `t` clamped to the retransmission timeout's range, 50 to 1000 ms.
pub open spec fn clamp_timeout_ms(t: int) -> int {
    if t < 50 {
        50
    } else if t > 1000 {
        1000
    } else {
        t
    }
}

/// Backoff of the retransmission timeout: the round trip times 1.5 for a frame never
/// resent, 2 after one retransmission, 2.5 after two, a quarter more for each further
/// one up to 3.5 (rounded half up and clamped to 50..=1000 ms); so the timeout never
/// shrinks as retransmissions accumulate.
pub proof fn lemma_retransmit_timeout_backoff(rtt: u64, k: u64)
    ensures
        retransmit_timeout_spec(rtt, 0) == clamp_timeout_ms((3 * rtt + 1) / 2),
        retransmit_timeout_spec(rtt, 1) == clamp_timeout_ms(2 * rtt),
        retransmit_timeout_spec(rtt, 2) == clamp_timeout_ms((5 * rtt + 1) / 2),
        2 <= k < 6 ==> retransmit_timeout_spec(rtt, k) == clamp_timeout_ms((rtt * (8 + k) + 2) / 4),
        k >= 6 ==> retransmit_timeout_spec(rtt, k) == clamp_timeout_ms((7 * rtt + 1) / 2),
        k < u64::MAX ==> retransmit_timeout_spec(rtt, k) <= retransmit_timeout_spec(rtt, (k + 1) as u64),
{
    assert((rtt * 6 + 2) / 4 == (3 * rtt + 1) / 2) by (nonlinear_arith);
    assert((rtt * 8 + 2) / 4 == 2 * rtt) by (nonlinear_arith);
    assert((rtt * 10 + 2) / 4 == (5 * rtt + 1) / 2) by (nonlinear_arith);
    assert((rtt * 14 + 2) / 4 == (7 * rtt + 1) / 2) by (nonlinear_arith);
    if 2 <= k < 6 {
        assert(retransmit_factor_quarters(k) == 8 + k);
    }
    if k < u64::MAX {
        let a = retransmit_factor_quarters(k);
        let b = retransmit_factor_quarters((k + 1) as u64);
        assert(a <= b);
        assert((rtt * a + 2) / 4 <= (rtt * b + 2) / 4) by (nonlinear_arith)
            requires
                a <= b,
        ;
    }
}

pub fn response_retransmit_factor_quarters(retransmit_count: u64) -> (r: u64)
    ensures
        r == retransmit_factor_quarters(retransmit_count),
{
    if retransmit_count == 0 {
        6
    } else if retransmit_count == 1 {
        8
    } else if retransmit_count - 2 >= 4 {
        14
    } else {
        10 + (retransmit_count - 2)
    }
}

/// Retransmit timeout for a response frame that has been retransmitted `retransmit_count`
/// times: the base RTT times the backoff factor, rounded, clamped to `50..=1000` ms.
pub fn response_retransmit_timeout_ms(
    summary: AckLatencySummary,
    retransmit_count: u64,
    bootstrap_rtt_ms: u64,
) -> (r: u64)
    ensures
        r == retransmit_timeout_spec(
            positive_or(
                first_present(summary.p50_ms, summary.avg_ms, summary.p95_ms),
                max_u64(bootstrap_rtt_ms, 1),
            ),
            retransmit_count,
        ),
        EXIT_RESPONSE_RETRANSMIT_TIMEOUT_MIN_MS <= r <= EXIT_RESPONSE_RETRANSMIT_TIMEOUT_MAX_MS,
{
    let rtt = response_retransmit_base_rtt_ms(summary, bootstrap_rtt_ms);
    retransmit_timeout_for_rtt(rtt, retransmit_count)
}

/// Retransmit timeout for a frame retransmitted `retransmit_count` times over a round trip
/// of `rtt` ms: the round trip times the backoff factor, rounded, clamped to `50..=1000` ms.
pub fn retransmit_timeout_for_rtt(rtt: u64, retransmit_count: u64) -> (r: u64)
    ensures
        r == retransmit_timeout_spec(rtt, retransmit_count),
        EXIT_RESPONSE_RETRANSMIT_TIMEOUT_MIN_MS <= r <= EXIT_RESPONSE_RETRANSMIT_TIMEOUT_MAX_MS,
{
    let q = response_retransmit_factor_quarters(retransmit_count);
    assert((rtt as int) * (q as int) + 2 <= u128::MAX) by (nonlinear_arith)
        requires
            rtt <= u64::MAX,
            q <= 14;
    let t = ((rtt as u128) * (q as u128) + 2) / 4;
    if t < EXIT_RESPONSE_RETRANSMIT_TIMEOUT_MIN_MS as u128 {
        EXIT_RESPONSE_RETRANSMIT_TIMEOUT_MIN_MS
    } else if t > EXIT_RESPONSE_RETRANSMIT_TIMEOUT_MAX_MS as u128 {
        EXIT_RESPONSE_RETRANSMIT_TIMEOUT_MAX_MS
    } else {
        t as u64
    }
}

/// Retransmit interval (ms) for a response frame; see `response_retransmit_timeout_ms`.
pub fn adaptive_response_retransmit_interval(
    summary: AckLatencySummary,
    retransmit_count: u64,
    bootstrap_rtt_ms: u64,
) -> (r: u64)
    ensures
        r == retransmit_timeout_spec(
            positive_or(
                first_present(summary.p50_ms, summary.avg_ms, summary.p95_ms),
                max_u64(bootstrap_rtt_ms, 1),
            ),
            retransmit_count,
        ),
{
    response_retransmit_timeout_ms(summary, retransmit_count, bootstrap_rtt_ms)
}

/// Pacing of response frames.
#[derive(Debug, Clone, Copy, PartialEq, Eq, Structural)]
pub struct ResponsePacingConfig {
    pub enabled: bool,
    pub window_frames: usize,
    pub bootstrap_rtt_ms: u64,
    pub min_interval_ms: u64,
}

/// Discipline of the in-flight cap of response frames.
#[derive(Debug, Clone, Copy, PartialEq, Eq, Structural)]
pub struct ResponseInflightDisciplineConfig {
    pub enabled: bool,
    pub hard_window_frames: usize,
    pub bootstrap_rtt_ms: u64,
    pub min_cap_frames: usize,
}

/// Spacing between paced response frames: the observed RTT (average, else median,
/// else 95th percentile; else the bootstrap RTT of at least 200 ms) divided by the
/// window, rounded up, and at least the minimum interval (at least 1 ms).
pub open spec fn pacing_interval_spec(summary: AckLatencySummary, config: ResponsePacingConfig) -> u64 {
    let bootstrap = max_u64(max_u64(config.bootstrap_rtt_ms, DEFAULT_EXIT_RESPONSE_PACING_BOOTSTRAP_RTT_MS), 1);
    let min_interval = max_u64(max_u64(config.min_interval_ms, DEFAULT_EXIT_RESPONSE_PACING_MIN_INTERVAL_MS), 1);
    let rtt = positive_or(first_present(summary.avg_ms, summary.p50_ms, summary.p95_ms), bootstrap);
    let divisor: u64 = if config.window_frames == 0 {
        1
    } else {
        config.window_frames as u64
    };
    let sum = if rtt + (divisor - 1) > u64::MAX {
        u64::MAX
    } else {
        (rtt + (divisor - 1)) as u64
    };
    max_u64((sum / divisor) as u64, min_interval)
}

pub fn response_pacing_interval_ms(summary: AckLatencySummary, config: ResponsePacingConfig) -> (r: u64)
    ensures
        r == pacing_interval_spec(summary, config),
{
    let b = if config.bootstrap_rtt_ms > DEFAULT_EXIT_RESPONSE_PACING_BOOTSTRAP_RTT_MS {
        config.bootstrap_rtt_ms
    } else {
        DEFAULT_EXIT_RESPONSE_PACING_BOOTSTRAP_RTT_MS
    };
    let bootstrap_rtt_ms = if b > 1 { b } else { 1 };
    let m = if config.min_interval_ms > DEFAULT_EXIT_RESPONSE_PACING_MIN_INTERVAL_MS {
        config.min_interval_ms
    } else {
        DEFAULT_EXIT_RESPONSE_PACING_MIN_INTERVAL_MS
    };
    let min_interval_ms = if m > 1 { m } else { 1 };
    let observed_rtt_ms = first_positive_or(summary.avg_ms, summary.p50_ms, summary.p95_ms, bootstrap_rtt_ms);
    let divisor: u64 = if config.window_frames == 0 { 1 } else { config.window_frames as u64 };
    let q = observed_rtt_ms.saturating_add(divisor - 1) / divisor;
    if q > min_interval_ms {
        q
    } else {
        min_interval_ms
    }
}

/// Strength of the ACK-latency pressure seen on a response stream.
#[derive(Debug, Clone, Copy, PartialEq, Eq, Structural)]
pub enum ResponseInflightPressureLevel {
    /// No pressure.
    Clear,
    Moderate,
    Severe,
}

impl ResponseInflightPressureLevel {
    pub fn as_str(self) -> (r: &'static str)
        ensures
            self == ResponseInflightPressureLevel::Clear ==> r == "none",
            self == ResponseInflightPressureLevel::Moderate ==> r == "moderate",
            self == ResponseInflightPressureLevel::Severe ==> r == "severe",
    {
        match self {
            ResponseInflightPressureLevel::Clear => "none",
            ResponseInflightPressureLevel::Moderate => "moderate",
            ResponseInflightPressureLevel::Severe => "severe",
        }
    }
}


pub open spec fn sat_mul_u64(a: u64, k: u64) -> u64 {
    if a * k > u64::MAX {
        u64::MAX
    } else {
        (a * k) as u64
    }
}

pub open spec fn sat_sub_usize(a: usize, b: usize) -> usize {
    if a >= b {
        (a - b) as usize
    } else {
        0
    }
}

pub open spec fn clamp_usize(v: usize, lo: usize, hi: usize) -> usize {
    if v < lo {
        lo
    } else if v > hi {
        hi
    } else {
        v
    }
}

/// Pressure seen on a response stream and the in-flight cap it calls for.
#[derive(Debug, Clone, Copy, PartialEq, Eq)]
pub struct ResponseInflightPressureSignal {
    pub level: ResponseInflightPressureLevel,
    pub target_cap_frames: usize,
    pub reason: &'static str,
}

/// The bootstrap RTT used by the in-flight discipline: at least 200 ms.
pub open spec fn discipline_bootstrap(config: ResponseInflightDisciplineConfig) -> u64 {
    max_u64(max_u64(config.bootstrap_rtt_ms, DEFAULT_EXIT_RESPONSE_PACING_BOOTSTRAP_RTT_MS), 1)
}

/// ACK tail latency: the 95th percentile, else the average, else the median; else the bootstrap RTT.
pub open spec fn ack_tail_ms(summary: AckLatencySummary, config: ResponseInflightDisciplineConfig) -> u64 {
    positive_or(first_present(summary.p95_ms, summary.avg_ms, summary.p50_ms), discipline_bootstrap(config))
}

/// Typical ACK latency: the average, else the median; else the tail latency.
pub open spec fn ack_typical_ms(summary: AckLatencySummary, config: ResponseInflightDisciplineConfig) -> u64 {
    positive_or(first_present(summary.avg_ms, summary.p50_ms, None), ack_tail_ms(summary, config))
}

/// Pressure level: near a full window, with the window stalled and ACKs slow.
/// Severe: stalled at least 96 ms, typical ACK at least 1.2 and tail at least 1.5 bootstrap RTTs.
/// Moderate: stalled at least 24 ms, typical ACK at least 1.2 and tail at least 1.25 bootstrap RTTs.
pub open spec fn pressure_level_spec(
    summary: AckLatencySummary,
    config: ResponseInflightDisciplineConfig,
    recent_window_wait_ms: u64,
    current_inflight: usize,
) -> ResponseInflightPressureLevel {
    let hard: usize = if config.hard_window_frames == 0 {
        1
    } else {
        config.hard_window_frames
    };
    let b = discipline_bootstrap(config);
    let tail = ack_tail_ms(summary, config);
    let typical = ack_typical_ms(summary, config);
    let near_window = current_inflight >= sat_sub_usize(hard, 4);
    let slow_floor = sat_mul_u64(b, 6) / 5;
    let slow_ack = typical >= slow_floor && tail >= sat_mul_u64(b, 5) / 4;
    let severe_slow_ack = typical >= slow_floor && tail >= sat_mul_u64(b, 3) / 2;
    if near_window && recent_window_wait_ms >= EXIT_RESPONSE_INFLIGHT_DISCIPLINE_STALL_SEVERE_MS && severe_slow_ack {
        ResponseInflightPressureLevel::Severe
    } else if near_window && recent_window_wait_ms >= EXIT_RESPONSE_INFLIGHT_DISCIPLINE_STALL_PRESSURE_MS
        && slow_ack {
        ResponseInflightPressureLevel::Moderate
    } else {
        ResponseInflightPressureLevel::Clear
    }
}

/// The in-flight cap a pressure level calls for: the hard window less 8 frames (severe) or
/// 4 frames (moderate), kept within `min_cap..=hard`; the hard window when there is none.
pub open spec fn pressure_target_spec(config: ResponseInflightDisciplineConfig, level: ResponseInflightPressureLevel) -> usize {
    let hard: usize = if config.hard_window_frames == 0 {
        1
    } else {
        config.hard_window_frames
    };
    let min_cap = clamp_usize(config.min_cap_frames, 1, hard);
    match level {
        ResponseInflightPressureLevel::Severe => clamp_usize(sat_sub_usize(hard, 8), min_cap, hard),
        ResponseInflightPressureLevel::Moderate => clamp_usize(sat_sub_usize(hard, 4), min_cap, hard),
        ResponseInflightPressureLevel::Clear => hard,
    }
}

fn sat_mul_u64_exec(a: u64, k: u64) -> (r: u64)
    ensures
        r == sat_mul_u64(a, k),
{
    assert((a as int) * (k as int) <= u128::MAX) by (nonlinear_arith)
        requires
            a <= u64::MAX,
            k <= u64::MAX;
    if (a as u128) * (k as u128) > u64::MAX as u128 {
        u64::MAX
    } else {
        a * k
    }
}

pub fn response_inflight_pressure_signal(
    summary: AckLatencySummary,
    config: ResponseInflightDisciplineConfig,
    recent_window_wait_ms: u64,
    current_inflight: usize,
) -> (r: ResponseInflightPressureSignal)
    ensures
        r.level == pressure_level_spec(summary, config, recent_window_wait_ms, current_inflight),
        r.target_cap_frames == pressure_target_spec(config, r.level),
        r.level == ResponseInflightPressureLevel::Severe ==> r.reason == "severe_stall_with_slow_ack",
        r.level == ResponseInflightPressureLevel::Moderate ==> r.reason == "stall_with_slow_ack",
        r.level == ResponseInflightPressureLevel::Clear ==> r.reason == "no_pressure",
{
    let hard_window_frames: usize = if config.hard_window_frames == 0 { 1 } else { config.hard_window_frames };
    let min_cap_frames = if config.min_cap_frames < 1 {
        1
    } else if config.min_cap_frames > hard_window_frames {
        hard_window_frames
    } else {
        config.min_cap_frames
    };
    let b0 = if config.bootstrap_rtt_ms > DEFAULT_EXIT_RESPONSE_PACING_BOOTSTRAP_RTT_MS {
        config.bootstrap_rtt_ms
    } else {
        DEFAULT_EXIT_RESPONSE_PACING_BOOTSTRAP_RTT_MS
    };
    let bootstrap_rtt_ms = if b0 > 1 { b0 } else { 1 };
    let ack_p95_ms = first_positive_or(summary.p95_ms, summary.avg_ms, summary.p50_ms, bootstrap_rtt_ms);
    let ack_avg_ms = first_positive_or(summary.avg_ms, summary.p50_ms, None, ack_p95_ms);
    let occupancy_near_window = current_inflight >= hard_window_frames.saturating_sub(4);
    let slow_ack_floor_ms = sat_mul_u64_exec(bootstrap_rtt_ms, 6) / 5;
    let moderate_ack_tail_ms = sat_mul_u64_exec(bootstrap_rtt_ms, 5) / 4;
    let severe_ack_tail_ms = sat_mul_u64_exec(bootstrap_rtt_ms, 3) / 2;
    let slow_ack = ack_avg_ms >= slow_ack_floor_ms && ack_p95_ms >= moderate_ack_tail_ms;
    let severe_slow_ack = ack_avg_ms >= slow_ack_floor_ms && ack_p95_ms >= severe_ack_tail_ms;
    if occupancy_near_window && recent_window_wait_ms >= EXIT_RESPONSE_INFLIGHT_DISCIPLINE_STALL_SEVERE_MS
        && severe_slow_ack {
        let t = hard_window_frames.saturating_sub(EXIT_RESPONSE_INFLIGHT_DISCIPLINE_REDUCE_STEP_FRAMES * 2);
        let target = if t < min_cap_frames {
            min_cap_frames
        } else if t > hard_window_frames {
            hard_window_frames
        } else {
            t
        };
        return ResponseInflightPressureSignal {
            level: ResponseInflightPressureLevel::Severe,
            target_cap_frames: target,
            reason: "severe_stall_with_slow_ack",
        };
    }
    if occupancy_near_window && recent_window_wait_ms >= EXIT_RESPONSE_INFLIGHT_DISCIPLINE_STALL_PRESSURE_MS
        && slow_ack {
        let t = hard_window_frames.saturating_sub(EXIT_RESPONSE_INFLIGHT_DISCIPLINE_REDUCE_STEP_FRAMES);
        let target = if t < min_cap_frames {
            min_cap_frames
        } else if t > hard_window_frames {
            hard_window_frames
        } else {
            t
        };
        return ResponseInflightPressureSignal {
            level: ResponseInflightPressureLevel::Moderate,
            target_cap_frames: target,
            reason: "stall_with_slow_ack",
        };
    }
    ResponseInflightPressureSignal {
        level: ResponseInflightPressureLevel::Clear,
        target_cap_frames: hard_window_frames,
        reason: "no_pressure",
    }
}

/// A clean sample for restoring the cap: no window stall, ACK tail within 1.5 and typical ACK
/// within 1.25 bootstrap RTTs, and at least 4 frames of headroom below the current cap.
pub open spec fn restore_is_clean_spec(
    summary: AckLatencySummary,
    config: ResponseInflightDisciplineConfig,
    recent_window_wait_ms: u64,
    current_inflight: usize,
    current_cap: usize,
) -> bool {
    let b = discipline_bootstrap(config);
    &&& recent_window_wait_ms == 0
    &&& ack_tail_ms(summary, config) <= sat_mul_u64(b, 3) / 2
    &&& ack_typical_ms(summary, config) <= sat_mul_u64(b, 5) / 4
    &&& (if current_inflight + EXIT_RESPONSE_INFLIGHT_DISCIPLINE_RESTORE_HEADROOM_FRAMES > usize::MAX {
        usize::MAX
    } else {
        (current_inflight + EXIT_RESPONSE_INFLIGHT_DISCIPLINE_RESTORE_HEADROOM_FRAMES) as usize
    }) < current_cap
}

pub fn response_inflight_restore_is_clean(
    summary: AckLatencySummary,
    config: ResponseInflightDisciplineConfig,
    recent_window_wait_ms: u64,
    current_inflight: usize,
    current_cap: usize,
) -> (r: bool)
    ensures
        r == restore_is_clean_spec(summary, config, recent_window_wait_ms, current_inflight, current_cap),
{
    let b0 = if config.bootstrap_rtt_ms > DEFAULT_EXIT_RESPONSE_PACING_BOOTSTRAP_RTT_MS {
        config.bootstrap_rtt_ms
    } else {
        DEFAULT_EXIT_RESPONSE_PACING_BOOTSTRAP_RTT_MS
    };
    let bootstrap_rtt_ms = if b0 > 1 { b0 } else { 1 };
    let ack_p95_ms = first_positive_or(summary.p95_ms, summary.avg_ms, summary.p50_ms, bootstrap_rtt_ms);
    let ack_avg_ms = first_positive_or(summary.avg_ms, summary.p50_ms, None, ack_p95_ms);
    recent_window_wait_ms == 0 && ack_p95_ms <= sat_mul_u64_exec(bootstrap_rtt_ms, 3) / 2 && ack_avg_ms
        <= sat_mul_u64_exec(bootstrap_rtt_ms, 5) / 4 && current_inflight.saturating_add(
        EXIT_RESPONSE_INFLIGHT_DISCIPLINE_RESTORE_HEADROOM_FRAMES,
    ) < current_cap
}

/// What an update of the in-flight discipline did to the cap.
#[derive(Debug, Clone, Copy, PartialEq, Eq, Structural)]
pub enum ResponseInflightCapAction {
    /// The cap was left as it was.
    Unchanged,
    Reduced,
    Restored,
}

/// One update of the in-flight discipline.
#[derive(Debug, Clone, Copy, PartialEq, Eq)]
pub struct ResponseInflightDecision {
    pub previous_cap_frames: usize,
    pub effective_cap_frames: usize,
    pub pressure_level: ResponseInflightPressureLevel,
    pub pressure_reason: &'static str,
    pub pressure_streak: u32,
    pub restore_clean_streak: u32,
    pub action: ResponseInflightCapAction,
}

/// In-flight discipline state of one response stream: the effective cap on frames in
/// flight, streaks of pressured and clean samples, and counters.
#[derive(Debug, Clone, Copy, PartialEq, Eq, Structural)]
pub struct ResponseInflightDisciplineState {
    pub effective_cap_frames: usize,
    pub effective_cap_sum: u64,
    pub effective_cap_samples: u64,
    pub effective_cap_min: usize,
    pub effective_cap_max: usize,
    pub inflight_cap_reduced_count: u64,
    pub inflight_cap_restore_count: u64,
    pub ack_pressure_events: u64,
    pub send_blocked_by_effective_cap: u64,
    pub pressure_streak: u32,
    pub max_pressure_streak: u32,
    pub restore_clean_streak: u32,
}

pub open spec fn sat_add_u64(a: u64, b: int) -> u64 {
    if a + b > u64::MAX {
        u64::MAX
    } else {
        (a + b) as u64
    }
}

pub open spec fn sat_add_u32(a: u32, b: int) -> u32 {
    if a + b > u32::MAX {
        u32::MAX
    } else {
        (a + b) as u32
    }
}

/// `s` after recording one sample of the cap `cap`.
pub open spec fn sampled(s: ResponseInflightDisciplineState, cap: usize) -> ResponseInflightDisciplineState {
    ResponseInflightDisciplineState {
        effective_cap_sum: sat_add_u64(s.effective_cap_sum, cap as int),
        effective_cap_samples: sat_add_u64(s.effective_cap_samples, 1),
        effective_cap_min: if s.effective_cap_min == 0 || cap < s.effective_cap_min {
            cap
        } else {
            s.effective_cap_min
        },
        effective_cap_max: if cap > s.effective_cap_max {
            cap
        } else {
            s.effective_cap_max
        },
        ..s
    }
}

/// `s` with its cap initialised to the hard window when it has none yet.
pub open spec fn with_cap(s: ResponseInflightDisciplineState, config: ResponseInflightDisciplineConfig) -> ResponseInflightDisciplineState {
    let hard: usize = if config.hard_window_frames == 0 {
        1
    } else {
        config.hard_window_frames
    };
    if s.effective_cap_frames == 0 {
        ResponseInflightDisciplineState {
            effective_cap_frames: hard,
            effective_cap_min: hard,
            effective_cap_max: hard,
            ..s
        }
    } else {
        s
    }
}

impl ResponseInflightDisciplineState {
    /// The effective cap, set to the hard window (at least 1) when none is set yet.
    pub fn current_cap(&mut self, config: ResponseInflightDisciplineConfig) -> (r: usize)
        ensures
            *final(self) == with_cap(*old(self), config),
            r == final(self).effective_cap_frames,
    {
        let hard_window_frames: usize = if config.hard_window_frames == 0 { 1 } else { config.hard_window_frames };
        if self.effective_cap_frames == 0 {
            self.effective_cap_frames = hard_window_frames;
            self.effective_cap_min = hard_window_frames;
            self.effective_cap_max = hard_window_frames;
        }
        self.effective_cap_frames
    }

    /// Record one sample of the effective cap.
    pub fn sample_cap(&mut self, cap_frames: usize)
        ensures
            *final(self) == sampled(*old(self), cap_frames),
    {
        self.effective_cap_sum = self.effective_cap_sum.saturating_add(cap_frames as u64);
        self.effective_cap_samples = self.effective_cap_samples.saturating_add(1);
        if self.effective_cap_min == 0 {
            self.effective_cap_min = cap_frames;
        } else if cap_frames < self.effective_cap_min {
            self.effective_cap_min = cap_frames;
        }
        if cap_frames > self.effective_cap_max {
            self.effective_cap_max = cap_frames;
        }
    }

    /// Average sampled cap.
    pub fn avg_cap_frames(&self) -> (r: Option<u64>)
        ensures
            r == (if self.effective_cap_samples == 0 {
                None
            } else {
                Some((self.effective_cap_sum / self.effective_cap_samples) as u64)
            }),
    {
        if self.effective_cap_samples == 0 {
            return None;
        }
        Some(self.effective_cap_sum / self.effective_cap_samples)
    }
}


pub open spec fn sat_sub_u32(a: u32, b: u32) -> u32 {
    if a >= b {
        (a - b) as u32
    } else {
        0
    }
}

/// Consecutive pressured samples needed before the cap is reduced.
pub open spec fn required_pressure_streak(level: ResponseInflightPressureLevel) -> u32 {
    match level {
        ResponseInflightPressureLevel::Clear => u32::MAX,
        ResponseInflightPressureLevel::Moderate => EXIT_RESPONSE_INFLIGHT_DISCIPLINE_MODERATE_PRESSURE_STREAK_SAMPLES,
        ResponseInflightPressureLevel::Severe => EXIT_RESPONSE_INFLIGHT_DISCIPLINE_SEVERE_PRESSURE_STREAK_SAMPLES,
    }
}

/// The discipline state after one enabled update, before the new cap is sampled, and the
/// action taken. Pressure that persists for the required streak lowers the cap to the
/// target; otherwise, below the hard window, three clean samples in a row raise it by 4.
pub open spec fn discipline_step(
    old: ResponseInflightDisciplineState,
    config: ResponseInflightDisciplineConfig,
    summary: AckLatencySummary,
    recent_window_wait_ms: u64,
    current_inflight: usize,
) -> (ResponseInflightDisciplineState, ResponseInflightCapAction) {
    let hard: usize = if config.hard_window_frames == 0 {
        1
    } else {
        config.hard_window_frames
    };
    let s1 = with_cap(old, config);
    let cur = s1.effective_cap_frames;
    let level = pressure_level_spec(summary, config, recent_window_wait_ms, current_inflight);
    let target = pressure_target_spec(config, level);
    let ps = if level == ResponseInflightPressureLevel::Clear {
        sat_sub_u32(s1.pressure_streak, 1)
    } else {
        sat_add_u32(s1.pressure_streak, 1)
    };
    let max_ps = if level != ResponseInflightPressureLevel::Clear && ps > s1.max_pressure_streak {
        ps
    } else {
        s1.max_pressure_streak
    };
    let s2 = ResponseInflightDisciplineState { pressure_streak: ps, max_pressure_streak: max_ps, ..s1 };
    if level != ResponseInflightPressureLevel::Clear && target < cur && ps >= required_pressure_streak(level) {
        (
            ResponseInflightDisciplineState {
                restore_clean_streak: 0,
                ack_pressure_events: sat_add_u64(s2.ack_pressure_events, 1),
                effective_cap_frames: target,
                inflight_cap_reduced_count: sat_add_u64(s2.inflight_cap_reduced_count, 1),
                ..s2
            },
            ResponseInflightCapAction::Reduced,
        )
    } else if cur < hard {
        if level == ResponseInflightPressureLevel::Clear && restore_is_clean_spec(
            summary,
            config,
            recent_window_wait_ms,
            current_inflight,
            cur,
        ) {
            let rcs = sat_add_u32(s2.restore_clean_streak, 1);
            if rcs >= EXIT_RESPONSE_INFLIGHT_DISCIPLINE_RESTORE_STREAK_SAMPLES {
                let next = if cur + 4 > usize::MAX {
                    usize::MAX
                } else {
                    (cur + 4) as usize
                };
                let adjusted = if next < hard {
                    next
                } else {
                    hard
                };
                if adjusted > cur {
                    (
                        ResponseInflightDisciplineState {
                            effective_cap_frames: adjusted,
                            inflight_cap_restore_count: sat_add_u64(s2.inflight_cap_restore_count, 1),
                            restore_clean_streak: 0,
                            ..s2
                        },
                        ResponseInflightCapAction::Restored,
                    )
                } else {
                    (ResponseInflightDisciplineState { restore_clean_streak: 0, ..s2 }, ResponseInflightCapAction::Unchanged)
                }
            } else {
                (ResponseInflightDisciplineState { restore_clean_streak: rcs, ..s2 }, ResponseInflightCapAction::Unchanged)
            }
        } else {
            (ResponseInflightDisciplineState { restore_clean_streak: 0, ..s2 }, ResponseInflightCapAction::Unchanged)
        }
    } else {
        (s2, ResponseInflightCapAction::Unchanged)
    }
}

impl ResponseInflightDisciplineState {
    /// Update the effective in-flight cap from the latest ACK latency summary, recent window
    /// stall time and frames in flight; the new cap is then sampled.
    pub fn update(
        &mut self,
        config: ResponseInflightDisciplineConfig,
        summary: AckLatencySummary,
        recent_window_wait_ms: u64,
        current_inflight: usize,
    ) -> (r: ResponseInflightDecision)
        ensures
            !config.enabled ==> {
                let hard: usize = if config.hard_window_frames == 0 {
                    1
                } else {
                    config.hard_window_frames
                };
                &&& *final(self) == sampled(ResponseInflightDisciplineState { effective_cap_frames: hard, ..*old(self) }, hard)
                &&& r.previous_cap_frames == hard
                &&& r.effective_cap_frames == hard
                &&& r.pressure_level == ResponseInflightPressureLevel::Clear
                &&& r.pressure_reason == "discipline_disabled"
                &&& r.pressure_streak == 0
                &&& r.restore_clean_streak == 0
                &&& r.action == ResponseInflightCapAction::Unchanged
            },
            config.enabled ==> {
                let step = discipline_step(*old(self), config, summary, recent_window_wait_ms, current_inflight);
                let level = pressure_level_spec(summary, config, recent_window_wait_ms, current_inflight);
                &&& *final(self) == sampled(step.0, step.0.effective_cap_frames)
                &&& r.previous_cap_frames == with_cap(*old(self), config).effective_cap_frames
                &&& r.effective_cap_frames == step.0.effective_cap_frames
                &&& r.pressure_level == level
                &&& (level == ResponseInflightPressureLevel::Severe ==> r.pressure_reason == "severe_stall_with_slow_ack")
                &&& (level == ResponseInflightPressureLevel::Moderate ==> r.pressure_reason == "stall_with_slow_ack")
                &&& (level == ResponseInflightPressureLevel::Clear ==> r.pressure_reason == "no_pressure")
                &&& r.pressure_streak == step.0.pressure_streak
                &&& r.restore_clean_streak == step.0.restore_clean_streak
                &&& r.action == step.1
            },
    {
        let hard_window_frames: usize = if config.hard_window_frames == 0 { 1 } else { config.hard_window_frames };
        if !config.enabled {
            self.effective_cap_frames = hard_window_frames;
            self.sample_cap(hard_window_frames);
            return ResponseInflightDecision {
                previous_cap_frames: hard_window_frames,
                effective_cap_frames: hard_window_frames,
                pressure_level: ResponseInflightPressureLevel::Clear,
                pressure_reason: "discipline_disabled",
                pressure_streak: 0,
                restore_clean_streak: 0,
                action: ResponseInflightCapAction::Unchanged,
            };
        }
        let current = self.current_cap(config);
        let signal = response_inflight_pressure_signal(summary, config, recent_window_wait_ms, current_inflight);
        let mut action = ResponseInflightCapAction::Unchanged;
        match signal.level {
            ResponseInflightPressureLevel::Clear => {
                self.pressure_streak = if self.pressure_streak >= 1 { self.pressure_streak - 1 } else { 0 };
            },
            ResponseInflightPressureLevel::Moderate | ResponseInflightPressureLevel::Severe => {
                self.pressure_streak = if self.pressure_streak < u32::MAX { self.pressure_streak + 1 } else { u32::MAX };
                if self.pressure_streak > self.max_pressure_streak {
                    self.max_pressure_streak = self.pressure_streak;
                }
            },
        }
        let required_pressure_streak = match signal.level {
            ResponseInflightPressureLevel::Clear => u32::MAX,
            ResponseInflightPressureLevel::Moderate => EXIT_RESPONSE_INFLIGHT_DISCIPLINE_MODERATE_PRESSURE_STREAK_SAMPLES,
            ResponseInflightPressureLevel::Severe => EXIT_RESPONSE_INFLIGHT_DISCIPLINE_SEVERE_PRESSURE_STREAK_SAMPLES,
        };
        if signal.level != ResponseInflightPressureLevel::Clear && signal.target_cap_frames < current
            && self.pressure_streak >= required_pressure_streak {
            self.restore_clean_streak = 0;
            self.ack_pressure_events = self.ack_pressure_events.saturating_add(1);
            self.effective_cap_frames = signal.target_cap_frames;
            self.inflight_cap_reduced_count = self.inflight_cap_reduced_count.saturating_add(1);
            action = ResponseInflightCapAction::Reduced;
        } else if current < hard_window_frames {
            if signal.level == ResponseInflightPressureLevel::Clear && response_inflight_restore_is_clean(
                summary,
                config,
                recent_window_wait_ms,
                current_inflight,
                current,
            ) {
                self.restore_clean_streak = if self.restore_clean_streak < u32::MAX {
                    self.restore_clean_streak + 1
                } else {
                    u32::MAX
                };
                if self.restore_clean_streak >= EXIT_RESPONSE_INFLIGHT_DISCIPLINE_RESTORE_STREAK_SAMPLES {
                    let next = current.saturating_add(EXIT_RESPONSE_INFLIGHT_DISCIPLINE_RESTORE_STEP_FRAMES);
                    let adjusted = if next < hard_window_frames { next } else { hard_window_frames };
                    if adjusted > current {
                        self.effective_cap_frames = adjusted;
                        self.inflight_cap_restore_count = self.inflight_cap_restore_count.saturating_add(1);
                        action = ResponseInflightCapAction::Restored;
                    }
                    self.restore_clean_streak = 0;
                }
            } else {
                self.restore_clean_streak = 0;
            }
        }
        let eff = self.effective_cap_frames;
        self.sample_cap(eff);
        ResponseInflightDecision {
            previous_cap_frames: current,
            effective_cap_frames: self.effective_cap_frames,
            pressure_level: signal.level,
            pressure_reason: signal.reason,
            pressure_streak: self.pressure_streak,
            restore_clean_streak: self.restore_clean_streak,
            action,
        }
    }
}

/// The in-flight cap never leaves `min_cap..=hard` once inside it: pressure lowers it at
/// most to the clamped target, and a restore raises it at most to the hard window.
pub proof fn lemma_discipline_cap_bounds(
    old: ResponseInflightDisciplineState,
    config: ResponseInflightDisciplineConfig,
    summary: AckLatencySummary,
    recent_window_wait_ms: u64,
    current_inflight: usize,
)
    requires
        config.hard_window_frames >= 1,
        config.min_cap_frames >= 1,
        config.min_cap_frames <= config.hard_window_frames,
        config.min_cap_frames <= old.effective_cap_frames <= config.hard_window_frames,
    ensures
        ({
            let cap = discipline_step(old, config, summary, recent_window_wait_ms, current_inflight).0.effective_cap_frames;
            config.min_cap_frames <= cap <= config.hard_window_frames
        }),
{
}

} // verus!
