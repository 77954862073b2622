//! Spectrum geometry: the FFT size the spectral engine picks for a sample
//! rate, and which bins the analysers and the plosive cut look at.

use vstd::prelude::*;

verus! {

/// Bins the GTCRN model takes: a 512-point FFT at 16 kHz.
pub const NUM_BINS: usize = 257;

/// Bins of the event analysis spectrum: a 480-point FFT at 48 kHz, 100 Hz apart.
pub const EVENT_BINS: usize = 241;

/// The FFT layout of the spectral engine at one sample rate.
#[derive(Clone, Copy)]
pub struct FftGeometry {
    /// FFT length; always even.
    pub nfft: usize,
    /// Hop between frames: half the FFT.
    pub hop: usize,
    /// Bins of the real FFT.
    pub bins: usize,
    /// Bins above those the model handles.
    pub high_bins: usize,
}

/// The layout for an FFT length of `raw` rounded up to an even number.
pub open spec fn geometry_spec(raw: nat) -> (nat, nat, nat, nat) {
    let nfft: nat = if raw % 2 == 0 { raw } else { raw + 1 };
    let bins: nat = nfft / 2 + 1;
    (nfft, nfft / 2, bins, if bins > NUM_BINS { (bins - NUM_BINS) as nat } else { 0nat })
}

/// The layout for `raw`, the 16 kHz model's 512 points scaled to the
/// engine's sample rate and rounded.
pub fn fft_geometry(raw: usize) -> (g: FftGeometry)
    requires
        raw < usize::MAX,
    ensures
        (g.nfft as nat, g.hop as nat, g.bins as nat, g.high_bins as nat) == geometry_spec(raw as nat),
{
    let nfft = if raw % 2 == 0 { raw } else { raw + 1 };
    let bins = nfft / 2 + 1;
    FftGeometry { nfft, hop: nfft / 2, bins, high_bins: bins.saturating_sub(NUM_BINS) }
}

/// The latency the engine reports: one hop.
pub fn reported_latency_samples(g: &FftGeometry) -> (r: u32)
    ensures
        r == g.hop as u32,
{
    g.hop as u32
}

/// The layout is consistent: the FFT is even, at least `raw` and at most
/// one longer, two hops long, and its bins are the model's plus the high ones.
pub proof fn lemma_geometry_consistent(raw: nat)
    ensures
        ({
            let (nfft, hop, bins, high) = geometry_spec(raw);
            &&& nfft % 2 == 0
            &&& raw <= nfft <= raw + 1
            &&& nfft == 2 * hop
            &&& bins == hop + 1
            &&& bins >= NUM_BINS ==> bins == NUM_BINS + high
        }),
{
}

/// The band of the event analysis a bin belongs to.
#[derive(Clone, Copy, PartialEq, Eq, Structural, Debug)]
pub enum EventBand {
    /// Below 300 Hz.
    Low,
    /// From 300 Hz to 4 kHz.
    Voice,
    /// Above 5 kHz.
    High,
}

/// The band of a bin at `hz`; bins between 4 and 5 kHz count in none.
pub open spec fn event_band_spec(hz: int) -> Option<EventBand> {
    if hz < 300 {
        Some(EventBand::Low)
    } else if hz <= 4000 {
        Some(EventBand::Voice)
    } else if hz > 5000 {
        Some(EventBand::High)
    } else {
        None
    }
}

/// The band of bin `i` of the event analysis spectrum, 100 Hz per bin.
pub fn event_band(i: usize) -> (r: Option<EventBand>)
    ensures
        r == event_band_spec(i * 100),
{
    if i < 3 {
        Some(EventBand::Low)
    } else if i <= 40 {
        Some(EventBand::Voice)
    } else if i > 50 {
        Some(EventBand::High)
    } else {
        None
    }
}

/// How the plosive cut treats a model bin (31.25 Hz apart).
#[derive(Clone, Copy, PartialEq, Eq, Structural, Debug)]
pub enum PlosiveBand {
    /// At or below 150 Hz: the full cut.
    Full,
    /// Above 150 Hz, within the lowest eleven bins: a cut tapering off towards 250 Hz.
    Taper,
    /// Not touched.
    Untouched,
}

/// The plosive treatment of bin `i`; its frequency in hundredths of a hertz
/// is `i * 3125`.
pub open spec fn plosive_band_spec(i: int) -> PlosiveBand {
    if i > 10 {
        PlosiveBand::Untouched
    } else if i * 3125 <= 15000 {
        PlosiveBand::Full
    } else {
        PlosiveBand::Taper
    }
}

/// The plosive treatment of model bin `i`.
pub fn plosive_band(i: usize) -> (r: PlosiveBand)
    ensures
        r == plosive_band_spec(i as int),
{
    if i > 10 {
        PlosiveBand::Untouched
    } else if i <= 4 {
        PlosiveBand::Full
    } else {
        PlosiveBand::Taper
    }
}

} // verus!
