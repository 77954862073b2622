//! Verified control logic of the VoiceGuard microphone cleanup engine.
//!
//! The signal path of VoiceGuard is floating point DSP and neural inference;
//! what this crate proves is everything around it that decides *when* and
//! *where* samples move: hop framing, the lookahead queue that pairs each
//! submitted frame with the enhancer's answer, the attenuator and event-hold state
//! machines, spectrum bin geometry, model state bookkeeping and the hand-off
//! to the enhancement worker thread.

pub mod framing;
pub mod pending;
pub mod event_hold;
pub mod gate;
pub mod worker;
pub mod channel;
pub mod spectrum;
pub mod model_state;
pub mod metadata;
pub mod vad;
pub mod latency;

use vstd::prelude::*;

verus! {

/// Samples in one enhancement hop (10 ms at 48 kHz).
pub const HOP: usize = 480;

/// Frames that must be queued behind a frame before it may be rendered.
pub const LOOKAHEAD: usize = 4;

/// Latency that the plugin reports to its host, in samples.
pub const REPORTED_LATENCY: u32 = 2880;

/// The reported latency is 60 ms at 48 kHz: six hops.
pub proof fn lemma_reported_latency()
    ensures
        REPORTED_LATENCY as int * 1000 == 60 * 48_000,
        REPORTED_LATENCY as int == 6 * HOP,
{
}

} // verus!
