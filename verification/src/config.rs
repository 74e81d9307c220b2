//! Tracer configuration.

use std::time::Duration;
use vstd::prelude::*;

verus! {

/// The sampling rate of one: every allocation is sampled.
///
/// Rates are counted in units of 2^-63, so a probability `p` is held as
/// `p * 2^63`, rounded up.
pub const SAMPLING_RATE_ONE: u64 = 0x8000_0000_0000_0000;

/// The duration that `Duration::from_millis` makes of a number of
/// milliseconds.
pub uninterp spec fn milliseconds(millis: u64) -> std::time::Duration;

/// `std::time::Duration::from_millis`: the duration of the given number of
/// milliseconds. It depends on that number alone.
pub assume_specification[ std::time::Duration::from_millis ](millis: u64) -> (duration: std::time::Duration)
    ensures
        duration == milliseconds(millis),
;

/// Controls how the tracer collects allocation events.
#[derive(Debug, Clone, Copy)]
pub struct TracerConfig {
    /// Maximum number of Python frames captured per allocation.
    pub max_stack_depth: u16,
    /// Probability-based sampling rate, from zero to [`SAMPLING_RATE_ONE`].
    pub sampling_rate: u64,
    /// Sample every N bytes when set (takes precedence over `sampling_rate`).
    pub sampling_bytes: Option<u64>,
    /// Per-thread ring buffer size, expressed in bytes.
    pub ring_buffer_bytes: usize,
    /// Whether to attempt capturing native stack frames in addition to Python.
    pub capture_native: bool,
    /// How many innermost native frames to leave out.
    pub native_skip_frames: usize,
    /// How many innermost Python frames to leave out.
    pub python_skip_frames: usize,
    /// Whether to enable the tracer immediately once constructed.
    pub start_enabled: bool,
    /// How frequently the background worker drains per-thread buffers.
    pub drain_interval: Duration,
}

impl Default for TracerConfig {
    fn default() -> (config: Self)
        ensures
            config == TracerConfig::initial(),
            config.max_stack_depth == 1,
            config.sampling_rate == 0x8000_0000_0000_0000,
            config.sampling_bytes is None,
            config.ring_buffer_bytes == 256 * 1024,
            !config.capture_native,
            config.native_skip_frames == 0,
            config.python_skip_frames == 0,
            config.start_enabled,
            config.drain_interval == milliseconds(25),
    {
        TracerConfig {
            max_stack_depth: 1,
            sampling_rate: SAMPLING_RATE_ONE,
            sampling_bytes: None,
            ring_buffer_bytes: 256 * 1024,
            capture_native: false,
            native_skip_frames: 0,
            python_skip_frames: 0,
            start_enabled: true,
            drain_interval: Duration::from_millis(25),
        }
    }
}

impl TracerConfig {
    /// The configuration that a tracer has when nothing is asked for.
    pub open spec fn initial() -> TracerConfig {
        TracerConfig {
            max_stack_depth: 1,
            sampling_rate: SAMPLING_RATE_ONE,
            sampling_bytes: None,
            ring_buffer_bytes: 262144,
            capture_native: false,
            native_skip_frames: 0,
            python_skip_frames: 0,
            start_enabled: true,
            drain_interval: milliseconds(25),
        }
    }

    /// Builder-style helper to adjust the maximum stack depth.
    #[must_use]
    pub fn with_max_stack_depth(self, depth: u16) -> (config: Self)
        ensures
            config == (TracerConfig { max_stack_depth: depth, ..self }),
    {
        TracerConfig { max_stack_depth: depth, ..self }
    }

    /// Explicitly disable eager tracer start-up.
    #[must_use]
    pub fn disabled(self) -> (config: Self)
        ensures
            config == (TracerConfig { start_enabled: false, ..self }),
    {
        TracerConfig { start_enabled: false, ..self }
    }
}

} // verus!
