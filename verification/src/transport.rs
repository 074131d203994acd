//! Deterministic transport chaos: which datagrams to drop, delay, reorder or duplicate.
use vstd::prelude::*;

verus! {

/// A chaos profile read from the environment; every decision is a pure function of
/// the profile and the packet.
#[derive(Clone, Debug, PartialEq, Eq)]
pub struct ChaosProfile {
    pub label: String,
    pub seed: u64,
    pub skip_packets: u64,
    pub loss_ppm: u32,
    pub duplicate_ppm: u32,
    pub reorder_ppm: u32,
    pub base_delay_ms: u64,
    pub jitter_ms: u64,
    pub reorder_extra_delay_ms: u64,
    pub duplicate_delay_ms: u64,
}

/// What chaos does to one datagram. `primary_delay_ms` is `None` when it is dropped.
#[derive(Clone, Copy, Debug, PartialEq, Eq, Structural)]
pub struct ChaosDecision {
    pub packet_index: u64,
    pub local_port: u16,
    pub to_port: u16,
    pub bytes: usize,
    pub primary_delay_ms: Option<u64>,
    pub duplicate_delay_ms: Option<u64>,
    pub dropped: bool,
    pub reordered: bool,
    pub jitter_ms: u64,
}

/// 64-bit mixing of the packet identity and a channel number (splitmix-style finaliser).
pub open spec fn mixed_sample_spec(
    seed: u64,
    packet_index: u64,
    local_port: u16,
    to_port: u16,
    bytes: usize,
    channel: u64,
) -> u64 {
    let v0 = seed ^ packet_index.wrapping_mul(0x9E37_79B9_7F4A_7C15u64) ^ (((local_port as u64)
        << 16u64) as u64) ^ (to_port as u64) ^ (((bytes as u64) << 32u64) as u64) ^ channel.wrapping_mul(0xD1B5_4A32_D192_ED03u64);
    let v1 = v0 ^ (v0 >> 30u64);
    let v2 = v1.wrapping_mul(0xBF58_476D_1CE4_E5B9u64);
    let v3 = v2 ^ (v2 >> 27u64);
    let v4 = v3.wrapping_mul(0x94D0_49BB_1331_11EBu64);
    v4 ^ (v4 >> 31u64)
}

pub fn mixed_sample(
    seed: u64,
    packet_index: u64,
    local_port: u16,
    to_port: u16,
    bytes: usize,
    channel: u64,
) -> (r: u64)
    ensures
        r == mixed_sample_spec(seed, packet_index, local_port, to_port, bytes, channel),
{
    let mut value = seed ^ packet_index.wrapping_mul(0x9E37_79B9_7F4A_7C15) ^ ((local_port as u64) << 16u64)
        ^ (to_port as u64) ^ ((bytes as u64) << 32u64) ^ channel.wrapping_mul(0xD1B5_4A32_D192_ED03);
    value = value ^ (value >> 30u64);
    value = value.wrapping_mul(0xBF58_476D_1CE4_E5B9);
    value = value ^ (value >> 27u64);
    value = value.wrapping_mul(0x94D0_49BB_1331_11EB);
    value ^ (value >> 31u64)
}

/// A sample hits with probability `threshold_ppm` parts per million (capped at one million).
pub open spec fn sample_ppm_spec(
    seed: u64,
    packet_index: u64,
    local_port: u16,
    to_port: u16,
    bytes: usize,
    channel: u64,
    threshold_ppm: u32,
) -> bool {
    threshold_ppm != 0 && mixed_sample_spec(seed, packet_index, local_port, to_port, bytes, channel) % 1_000_000
        < (if threshold_ppm > 1_000_000 {
        1_000_000u32
    } else {
        threshold_ppm
    })
}

pub fn sample_ppm(
    seed: u64,
    packet_index: u64,
    local_port: u16,
    to_port: u16,
    bytes: usize,
    channel: u64,
    threshold_ppm: u32,
) -> (r: bool)
    ensures
        r == sample_ppm_spec(seed, packet_index, local_port, to_port, bytes, channel, threshold_ppm),
{
    if threshold_ppm == 0 {
        return false;
    }
    let threshold = if threshold_ppm > 1_000_000 { 1_000_000 } else { threshold_ppm };
    let sample = mixed_sample(seed, packet_index, local_port, to_port, bytes, channel) % 1_000_000;
    sample < threshold as u64
}

/// A sample in `0..upper_exclusive` (0 when the range has at most one value).
pub open spec fn sample_range_spec(
    seed: u64,
    packet_index: u64,
    local_port: u16,
    to_port: u16,
    bytes: usize,
    channel: u64,
    upper_exclusive: u64,
) -> u64 {
    if upper_exclusive <= 1 {
        0
    } else {
        mixed_sample_spec(seed, packet_index, local_port, to_port, bytes, channel) % upper_exclusive
    }
}

pub fn sample_range(
    seed: u64,
    packet_index: u64,
    local_port: u16,
    to_port: u16,
    bytes: usize,
    channel: u64,
    upper_exclusive: u64,
) -> (r: u64)
    ensures
        r == sample_range_spec(seed, packet_index, local_port, to_port, bytes, channel, upper_exclusive),
        upper_exclusive > 1 ==> r < upper_exclusive,
{
    if upper_exclusive <= 1 {
        return 0;
    }
    mixed_sample(seed, packet_index, local_port, to_port, bytes, channel) % upper_exclusive
}

pub open spec fn sat_add(a: u64, b: u64) -> u64 {
    if a + b > u64::MAX {
        u64::MAX
    } else {
        (a + b) as u64
    }
}

pub open spec fn max1(a: u64) -> u64 {
    if a >= 1 {
        a
    } else {
        1
    }
}

impl ChaosProfile {
    /// Chaos is active when any loss, duplication, reordering or delay is configured.
    pub open spec fn active_spec(&self) -> bool {
        self.loss_ppm > 0 || self.duplicate_ppm > 0 || self.reorder_ppm > 0 || self.base_delay_ms > 0
            || self.jitter_ms > 0 || self.reorder_extra_delay_ms > 0
    }

    pub fn is_active(&self) -> (r: bool)
        ensures
            r == self.active_spec(),
    {
        self.loss_ppm > 0 || self.duplicate_ppm > 0 || self.reorder_ppm > 0 || self.base_delay_ms > 0
            || self.jitter_ms > 0 || self.reorder_extra_delay_ms > 0
    }

    /// Decide the fate of the `packet_index`-th datagram (1-based). The first `skip_packets`
    /// datagrams pass untouched; after that jitter, reordering (channel 1), loss (channel 2)
    /// and duplication (channel 4) are sampled from the packet identity.
    pub fn plan(&self, packet_index: u64, local_port: u16, to_port: u16, bytes: usize) -> (d: ChaosDecision)
        ensures
            d.packet_index == packet_index,
            d.local_port == local_port,
            d.to_port == to_port,
            d.bytes == bytes,
            packet_index <= self.skip_packets ==> d == (ChaosDecision {
                packet_index,
                local_port,
                to_port,
                bytes,
                primary_delay_ms: Some(0),
                duplicate_delay_ms: None,
                dropped: false,
                reordered: false,
                jitter_ms: 0,
            }),
            packet_index > self.skip_packets ==> {
                let jitter = if self.jitter_ms == 0 {
                    0
                } else {
                    sample_range_spec(self.seed, packet_index, local_port, to_port, bytes, 3, sat_add(self.jitter_ms, 1))
                };
                let reordered = sample_ppm_spec(self.seed, packet_index, local_port, to_port, bytes, 1, self.reorder_ppm);
                let dropped = sample_ppm_spec(self.seed, packet_index, local_port, to_port, bytes, 2, self.loss_ppm);
                let duplicate = sample_ppm_spec(self.seed, packet_index, local_port, to_port, bytes, 4, self.duplicate_ppm);
                let base = sat_add(
                    sat_add(self.base_delay_ms, jitter),
                    if reordered {
                        max1(self.reorder_extra_delay_ms)
                    } else {
                        0
                    },
                );
                &&& d.jitter_ms == jitter
                &&& d.reordered == reordered
                &&& d.dropped == dropped
                &&& d.primary_delay_ms == (if dropped {
                    None
                } else {
                    Some(base)
                })
                &&& d.duplicate_delay_ms == (if duplicate {
                    Some(max1(sat_add(base, max1(self.duplicate_delay_ms))))
                } else {
                    None
                })
            },
    {
        if packet_index <= self.skip_packets {
            return ChaosDecision {
                packet_index,
                local_port,
                to_port,
                bytes,
                primary_delay_ms: Some(0),
                duplicate_delay_ms: None,
                dropped: false,
                reordered: false,
                jitter_ms: 0,
            };
        }
        let jitter_ms = if self.jitter_ms == 0 {
            0
        } else {
            sample_range(self.seed, packet_index, local_port, to_port, bytes, 3, self.jitter_ms.saturating_add(1))
        };
        let reordered = sample_ppm(self.seed, packet_index, local_port, to_port, bytes, 1, self.reorder_ppm);
        let dropped = sample_ppm(self.seed, packet_index, local_port, to_port, bytes, 2, self.loss_ppm);
        let duplicate = sample_ppm(self.seed, packet_index, local_port, to_port, bytes, 4, self.duplicate_ppm);
        let extra = if reordered {
            if self.reorder_extra_delay_ms > 1 { self.reorder_extra_delay_ms } else { 1 }
        } else {
            0
        };
        let base_delay_ms = self.base_delay_ms.saturating_add(jitter_ms).saturating_add(extra);
        let primary_delay_ms = if dropped { None } else { Some(base_delay_ms) };
        let dup_gap = if self.duplicate_delay_ms > 1 { self.duplicate_delay_ms } else { 1 };
        let duplicate_delay_ms = if duplicate {
            let d = base_delay_ms.saturating_add(dup_gap);
            Some(if d > 1 { d } else { 1 })
        } else {
            None
        };
        ChaosDecision {
            packet_index,
            local_port,
            to_port,
            bytes,
            primary_delay_ms,
            duplicate_delay_ms,
            dropped,
            reordered,
            jitter_ms,
        }
    }
}

} // verus!
