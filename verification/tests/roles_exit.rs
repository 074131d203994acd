use vpnnode::clock::now_ms;
use vpnnode::roles::exit::{
    adaptive_response_retransmit_interval, clamp_response_window_frames, response_inflight_pressure_signal,
    response_inflight_restore_is_clean, response_pacing_interval_ms, response_retransmit_base_rtt_ms,
    response_retransmit_factor_quarters, response_retransmit_timeout_ms, ResponseInflightCapAction,
    ResponseInflightDisciplineConfig, ResponseInflightDisciplineState, ResponseInflightPressureLevel,
    ResponsePacingConfig, EXIT_RESPONSE_INFLIGHT_DISCIPLINE_RESTORE_STREAK_SAMPLES,
};
use vpnnode::stream_reliable::{AckLatencySummary, ReliableStream};

fn summary(avg: u64, min: u64, p50: u64, p95: u64, max: u64) -> AckLatencySummary {
    AckLatencySummary { avg_ms: Some(avg), min_ms: Some(min), p50_ms: Some(p50), p95_ms: Some(p95), max_ms: Some(max) }
}

fn empty_summary() -> AckLatencySummary {
    AckLatencySummary { avg_ms: None, min_ms: None, p50_ms: None, p95_ms: None, max_ms: None }
}

fn pacing(min_interval_ms: u64) -> ResponsePacingConfig {
    ResponsePacingConfig { enabled: true, window_frames: 64, bootstrap_rtt_ms: 200, min_interval_ms }
}

fn discipline() -> ResponseInflightDisciplineConfig {
    ResponseInflightDisciplineConfig { enabled: true, hard_window_frames: 64, bootstrap_rtt_ms: 200, min_cap_frames: 40 }
}

fn state_with_cap(cap: usize) -> ResponseInflightDisciplineState {
    ResponseInflightDisciplineState {
        effective_cap_frames: cap,
        effective_cap_sum: 0,
        effective_cap_samples: 0,
        effective_cap_min: cap,
        effective_cap_max: cap,
        inflight_cap_reduced_count: 0,
        inflight_cap_restore_count: 0,
        ack_pressure_events: 0,
        send_blocked_by_effective_cap: 0,
        pressure_streak: 0,
        max_pressure_streak: 0,
        restore_clean_streak: 0,
    }
}

#[test]
fn response_retransmit_timeouts_match_rtt() {
    assert_eq!(response_retransmit_timeout_ms(summary(180, 160, 175, 190, 220), 0, 200), 263);
    assert_eq!(response_retransmit_timeout_ms(summary(220, 200, 210, 260, 280), 1, 200), 420);
    assert_eq!(response_retransmit_timeout_ms(summary(420, 390, 410, 520, 560), 4, 200), 1000);
    assert_eq!(response_retransmit_timeout_ms(summary(10, 10, 10, 10, 10), 0, 200), 50);
    assert_eq!(response_retransmit_factor_quarters(0), 6);
    assert_eq!(response_retransmit_factor_quarters(1), 8);
    assert_eq!(response_retransmit_factor_quarters(2), 10);
    assert_eq!(response_retransmit_factor_quarters(5), 13);
    assert_eq!(response_retransmit_factor_quarters(6), 14);
    assert_eq!(response_retransmit_factor_quarters(u64::MAX), 14);
    assert_eq!(response_retransmit_base_rtt_ms(empty_summary(), 0), 1);
    let only_p95 = AckLatencySummary { p95_ms: Some(33), ..empty_summary() };
    assert_eq!(response_retransmit_base_rtt_ms(only_p95, 200), 33);
}

#[test]
fn adaptive_retransmit_interval_uses_bootstrap_without_ack_samples() {
    assert_eq!(adaptive_response_retransmit_interval(empty_summary(), 0, 200), 300);
}

#[test]
fn window_frames_are_clamped() {
    assert_eq!(clamp_response_window_frames(0), 8);
    assert_eq!(clamp_response_window_frames(64), 64);
    assert_eq!(clamp_response_window_frames(10_000), 256);
}

#[test]
fn response_pacing_interval_uses_bootstrap_when_ack_samples_missing() {
    assert_eq!(response_pacing_interval_ms(empty_summary(), pacing(1)), 4);
}

#[test]
fn response_pacing_interval_tracks_ack_rtt_and_respects_minimum() {
    let interval_ms = response_pacing_interval_ms(summary(320, 280, 300, 410, 430), pacing(1));
    assert_eq!(interval_ms, 5);

    let min_interval_ms = response_pacing_interval_ms(summary(20, 15, 18, 24, 28), pacing(2));
    assert_eq!(min_interval_ms, 2);
}

#[test]
fn pacing_interval_does_not_depend_on_enabled_flag() {
    let cfg = ResponsePacingConfig { enabled: false, ..pacing(1) };
    assert_eq!(response_pacing_interval_ms(summary(320, 280, 300, 410, 430), cfg), 5);
    let wide = ResponsePacingConfig { window_frames: 0, ..pacing(1) };
    assert_eq!(response_pacing_interval_ms(summary(320, 280, 300, 410, 430), wide), 320);
}

#[test]
fn response_inflight_discipline_ignores_short_path_retransmit_age_noise() {
    let mut stream = ReliableStream::new();
    let base = now_ms();

    for _ in 0..8 {
        let frame = stream.build_outgoing_frame(7, vec![1; 1000]);
        let entry = stream.unacked.iter_mut().find(|(s, _)| *s == frame.frame_seq).unwrap();
        entry.1.first_sent_ms = base - 760;
        entry.1.last_sent_ms = base - 185;
        entry.1.retransmit_count = 1;
    }

    let details = stream.apply_ack_with_latency_details(8);
    assert_eq!(details.acked_frames, 8);
    let summary = stream.ack_latency_summary();
    assert!(summary.avg_ms.unwrap() < 300);
    assert!(summary.p95_ms.unwrap() < 300);

    let pacing_interval_ms = response_pacing_interval_ms(summary, pacing(1));
    assert_eq!(pacing_interval_ms, 3);

    let retransmit_interval = adaptive_response_retransmit_interval(summary, 0, 200);
    assert_eq!(retransmit_interval, 278);

    let pressure = response_inflight_pressure_signal(summary, discipline(), 0, 48);
    assert_eq!(pressure.level, ResponseInflightPressureLevel::Clear);
    assert_eq!(pressure.target_cap_frames, 64);
}

#[test]
fn response_inflight_pressure_signal_detects_severe_stall_with_slow_ack() {
    let signal = response_inflight_pressure_signal(summary(260, 180, 250, 360, 360), discipline(), 120, 60);
    assert_eq!(signal.level, ResponseInflightPressureLevel::Severe);
    assert_eq!(signal.reason, "severe_stall_with_slow_ack");
    assert_eq!(signal.target_cap_frames, 56);
}

#[test]
fn response_inflight_pressure_signal_ignores_transient_fast_route_stall() {
    let signal = response_inflight_pressure_signal(summary(189, 140, 182, 202, 605), discipline(), 410, 64);
    assert_eq!(signal.level, ResponseInflightPressureLevel::Clear);
    assert_eq!(signal.reason, "no_pressure");
    assert_eq!(signal.target_cap_frames, 64);
}

#[test]
fn response_inflight_pressure_signal_detects_moderate_stall_with_slow_ack() {
    let signal = response_inflight_pressure_signal(summary(243, 230, 235, 251, 366), discipline(), 24, 61);
    assert_eq!(signal.level, ResponseInflightPressureLevel::Moderate);
    assert_eq!(signal.reason, "stall_with_slow_ack");
    assert_eq!(signal.target_cap_frames, 60);
}

#[test]
fn pressure_level_names() {
    assert_eq!(ResponseInflightPressureLevel::Clear.as_str(), "none");
    assert_eq!(ResponseInflightPressureLevel::Moderate.as_str(), "moderate");
    assert_eq!(ResponseInflightPressureLevel::Severe.as_str(), "severe");
}

#[test]
fn response_inflight_state_requires_sustained_pressure_before_reducing() {
    let config = discipline();
    let mut state = state_with_cap(64);
    let first = state.update(config, summary(243, 230, 235, 251, 366), 24, 61);
    assert_eq!(first.effective_cap_frames, 64);
    assert_eq!(first.action, ResponseInflightCapAction::Unchanged);
    assert_eq!(first.pressure_streak, 1);

    let second = state.update(config, summary(245, 231, 236, 255, 370), 30, 61);
    assert_eq!(second.effective_cap_frames, 60);
    assert_eq!(second.action, ResponseInflightCapAction::Reduced);
    assert_eq!(state.inflight_cap_reduced_count, 1);
}

#[test]
fn response_inflight_state_restores_after_shorter_clean_streak() {
    let config = discipline();
    let mut state = state_with_cap(56);
    let clean_summary = summary(180, 150, 175, 220, 250);

    let cap_while_still_busy = state.update(config, clean_summary, 0, 52);
    assert_eq!(cap_while_still_busy.effective_cap_frames, 56);
    assert_eq!(state.inflight_cap_restore_count, 0);

    for _ in 0..(EXIT_RESPONSE_INFLIGHT_DISCIPLINE_RESTORE_STREAK_SAMPLES - 1) {
        let decision = state.update(config, clean_summary, 0, 24);
        assert_eq!(decision.effective_cap_frames, 56);
    }
    let restored = state.update(config, clean_summary, 0, 24);
    assert_eq!(restored.effective_cap_frames, 60);
    assert_eq!(restored.action, ResponseInflightCapAction::Restored);
    assert_eq!(state.inflight_cap_restore_count, 1);
}

#[test]
fn restore_needs_no_wait_fast_acks_and_headroom() {
    let clean = summary(180, 150, 175, 220, 250);
    assert!(response_inflight_restore_is_clean(clean, discipline(), 0, 24, 56));
    assert!(!response_inflight_restore_is_clean(clean, discipline(), 1, 24, 56));
    assert!(!response_inflight_restore_is_clean(clean, discipline(), 0, 52, 56));
    assert!(!response_inflight_restore_is_clean(summary(180, 150, 175, 301, 250), discipline(), 0, 24, 56));
}

#[test]
fn disabled_discipline_pins_hard_window() {
    let cfg = ResponseInflightDisciplineConfig { enabled: false, ..discipline() };
    let mut state = state_with_cap(40);
    let d = state.update(cfg, summary(260, 180, 250, 360, 360), 120, 60);
    assert_eq!(d.effective_cap_frames, 64);
    assert_eq!(d.action, ResponseInflightCapAction::Unchanged);
    assert_eq!(d.pressure_reason, "discipline_disabled");
    assert_eq!(state.effective_cap_frames, 64);
    assert_eq!(state.current_cap(cfg), 64);
    assert_eq!(state.avg_cap_frames(), Some(64));
}
