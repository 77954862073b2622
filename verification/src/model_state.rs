//! Bookkeeping around the neural models: the recurrent state they carry
//! from frame to frame, the shape checks on what they return, and the
//! comma-separated lists in the DPDFNet model's metadata.

use vstd::prelude::*;
use crate::framing::{copy_frame, pairs_of, deinterleave};
use crate::spectrum::NUM_BINS;

verus! {

/// Bins of the DPDFNet spectrum: a 960-point FFT at 48 kHz.
pub const DPDF_BINS: usize = 481;

/// Length of GTCRN's convolution cache.
pub const CONV_SIZE: usize = 16896;

/// Length of GTCRN's temporal recurrent cache.
pub const TRA_SIZE: usize = 96;

/// Length of GTCRN's inter-frame cache.
pub const INTER_SIZE: usize = 1056;

/// `n` copies of `zero`.
pub fn zeros<T: Copy>(n: usize, zero: T) -> (r: Vec<T>)
    ensures
        r@ == Seq::new(n as nat, |_i: int| zero),
{
    let mut r: Vec<T> = Vec::with_capacity(n);
    let mut i: usize = 0;
    while i < n
        invariant
            i <= n,
            r@ == Seq::new(i as nat, |_i: int| zero),
        decreases n - i,
    {
        r.push(zero);
        i = i + 1;
        assert(r@ =~= Seq::new(i as nat, |_i: int| zero));
    }
    r
}

/// The DPDFNet state the model metadata describes: the ERB normalisation
/// values, then the spectral normalisation values, then zeros.
pub open spec fn initial_state_spec<T>(state_size: nat, erb: Seq<T>, spec: Seq<T>, zero: T) -> Seq<T> {
    erb + spec + Seq::new((state_size - erb.len() - spec.len()) as nat, |_i: int| zero)
}

/// The initial state holds the ERB values at its start, the spectral
/// values right after them, each list in place and in order, and zeros
/// everywhere after; it is as long as the metadata says.
pub proof fn lemma_initial_state_layout<T>(state_size: nat, erb: Seq<T>, spec: Seq<T>, zero: T)
    requires
        erb.len() + spec.len() <= state_size,
    ensures
        initial_state_spec(state_size, erb, spec, zero).len() == state_size,
        forall|i: int| 0 <= i < erb.len() ==> initial_state_spec(state_size, erb, spec, zero)[i] == #[trigger] erb[i],
        forall|i: int|
            0 <= i < spec.len() ==> initial_state_spec(state_size, erb, spec, zero)[erb.len() + i] == #[trigger] spec[i],
        forall|i: int|
            erb.len() + spec.len() <= i < state_size ==> #[trigger] initial_state_spec(state_size, erb, spec, zero)[i]
                == zero,
{
    let v = initial_state_spec(state_size, erb, spec, zero);
    assert forall|i: int| 0 <= i < spec.len() implies v[erb.len() + i] == #[trigger] spec[i] by {
        assert((erb + spec)[erb.len() + i] == spec[i]);
    }
}

/// Builds DPDFNet's initial state from its metadata. Fails when a list's
/// length differs from the size the metadata gives for it, or when both
/// lists together do not fit in the state.
pub fn initial_state<T: Copy>(
    state_size: usize,
    erb_size: usize,
    spec_size: usize,
    erb: &[T],
    spec: &[T],
    zero: T,
) -> (r: Result<Vec<T>, ()>)
    ensures
        r is Ok <==> (erb.len() == erb_size && spec.len() == spec_size && erb_size + spec_size <= state_size),
        r matches Ok(v) ==> v@ == initial_state_spec(state_size as nat, erb@, spec@, zero),
        r matches Ok(v) ==> {
            &&& v@.len() == state_size
            &&& forall|i: int| 0 <= i < erb_size ==> v@[i] == #[trigger] erb@[i]
            &&& forall|i: int| 0 <= i < spec_size ==> v@[erb_size + i] == #[trigger] spec@[i]
            &&& forall|i: int| erb_size + spec_size <= i < state_size ==> #[trigger] v@[i] == zero
        },
{
    if erb.len() != erb_size || spec.len() != spec_size || erb_size > state_size || spec_size > state_size - erb_size {
        return Err(());
    }
    let mut state = copy_frame(erb);
    let mut i: usize = 0;
    while i < spec_size
        invariant
            spec.len() == spec_size,
            i <= spec_size,
            state@ == erb@ + spec@.take(i as int),
        decreases spec_size - i,
    {
        state.push(spec[i]);
        i = i + 1;
        assert(state@ =~= erb@ + spec@.take(i as int));
    }
    let rest = state_size - erb_size - spec_size;
    let mut j: usize = 0;
    while j < rest
        invariant
            j <= rest,
            spec.len() == spec_size,
            state@ == erb@ + spec@ + Seq::new(j as nat, |_i: int| zero),
        decreases rest - j,
    {
        state.push(zero);
        j = j + 1;
        assert(state@ =~= erb@ + spec@ + Seq::new(j as nat, |_i: int| zero));
    }
    assert(spec@.take(spec_size as int) =~= spec@);
    proof {
        lemma_initial_state_layout(state_size as nat, erb@, spec@, zero);
    }
    Ok(state)
}

/// Replaces `state` by `out` when the model returned a state of the same
/// length; returns whether it did.
pub fn adopt_state<T: Copy>(state: &mut Vec<T>, out: &[T]) -> (r: bool)
    ensures
        r == (out.len() == old(state).len()),
        r ==> final(state)@ == out@,
        !r ==> final(state)@ == old(state)@,
{
    if out.len() != state.len() {
        return false;
    }
    *state = copy_frame(out);
    true
}

/// The bins a model returned, with the imaginary parts of the first and
/// last bins set to `zero`, as a real signal's spectrum requires.
pub open spec fn real_spectrum<T>(bins: Seq<(T, T)>, zero: T) -> Seq<(T, T)> {
    bins.update(0, (bins[0].0, zero)).update(bins.len() - 1, (bins[bins.len() - 1].0, zero))
}

/// The bins of one DPDFNet run read back as a real signal's spectrum:
/// every bin's real part is the model's, every bin strictly between the
/// first and the last is the model's pair, and only the imaginary parts of
/// the first (DC) and last (Nyquist) bins are replaced by `zero`.
pub proof fn lemma_real_spectrum_bins<T>(enhanced: Seq<T>, zero: T)
    requires
        enhanced.len() >= 2 * DPDF_BINS,
    ensures
        real_spectrum(pairs_of(enhanced, DPDF_BINS as nat), zero).len() == DPDF_BINS,
        forall|i: int|
            0 <= i < DPDF_BINS ==> (#[trigger] real_spectrum(pairs_of(enhanced, DPDF_BINS as nat), zero)[i]).0
                == enhanced[2 * i],
        forall|i: int|
            0 < i < DPDF_BINS - 1 ==> #[trigger] real_spectrum(pairs_of(enhanced, DPDF_BINS as nat), zero)[i] == (
                enhanced[2 * i],
                enhanced[2 * i + 1],
            ),
        real_spectrum(pairs_of(enhanced, DPDF_BINS as nat), zero)[0].1 == zero,
        real_spectrum(pairs_of(enhanced, DPDF_BINS as nat), zero)[DPDF_BINS - 1].1 == zero,
{
}

/// DPDFNet's recurrent state.
pub struct DpdfModelState<T> {
    state: Vec<T>,
}

impl<T: Copy> DpdfModelState<T> {
    /// The state passed with the next frame.
    pub closed spec fn state(&self) -> Seq<T> {
        self.state@
    }

    /// Starts from the state built from the model metadata.
    pub fn new(init: Vec<T>) -> (r: Self)
        ensures
            r.state() == init@,
    {
        DpdfModelState { state: init }
    }

    /// The state to pass with the next frame.
    pub fn current(&self) -> (r: &[T])
        ensures
            r@ == self.state(),
    {
        self.state.as_slice()
    }

    /// Takes in one run of the model: the enhanced spectrum as interleaved
    /// `re, im` values and the next state. Fails, keeping the state, when
    /// the spectrum is short or the state changed length; otherwise adopts
    /// the state and returns the spectrum's bins as a real signal's.
    pub fn accept(&mut self, enhanced: &[T], next_state: &[T], zero: T) -> (r: Result<Vec<(T, T)>, ()>)
        ensures
            r is Ok <==> (enhanced.len() >= 2 * DPDF_BINS && next_state.len() == old(self).state().len()),
            r is Err ==> final(self).state() == old(self).state(),
            r matches Ok(bins) ==> {
                &&& final(self).state() == next_state@
                &&& bins@ == real_spectrum(pairs_of(enhanced@, DPDF_BINS as nat), zero)
                &&& bins@.len() == DPDF_BINS
                &&& forall|i: int| 0 <= i < DPDF_BINS ==> (#[trigger] bins@[i]).0 == enhanced@[2 * i]
                &&& forall|i: int| 0 < i < DPDF_BINS - 1 ==> #[trigger] bins@[i] == (enhanced@[2 * i], enhanced@[2 * i + 1])
                &&& bins@[0].1 == zero
                &&& bins@[DPDF_BINS - 1].1 == zero
            },
    {
        if enhanced.len() < 2 * DPDF_BINS || next_state.len() != self.state.len() {
            return Err(());
        }
        self.state = copy_frame(next_state);
        let mut bins = deinterleave(enhanced, DPDF_BINS);
        let first = bins[0].0;
        bins[0] = (first, zero);
        let last = bins[DPDF_BINS - 1].0;
        bins[DPDF_BINS - 1] = (last, zero);
        proof {
            lemma_real_spectrum_bins(enhanced@, zero);
        }
        Ok(bins)
    }
}

/// GTCRN's three recurrent caches.
pub struct GtcrnState<T> {
    conv: Vec<T>,
    tra: Vec<T>,
    inter: Vec<T>,
}

impl<T: Copy> GtcrnState<T> {
    /// The convolution cache.
    pub closed spec fn conv(&self) -> Seq<T> {
        self.conv@
    }

    /// The temporal recurrent cache.
    pub closed spec fn tra(&self) -> Seq<T> {
        self.tra@
    }

    /// The inter-frame cache.
    pub closed spec fn inter(&self) -> Seq<T> {
        self.inter@
    }

    /// Caches all holding `zero`.
    pub fn new(zero: T) -> (r: Self)
        ensures
            r.conv() == Seq::new(CONV_SIZE as nat, |_i: int| zero),
            r.tra() == Seq::new(TRA_SIZE as nat, |_i: int| zero),
            r.inter() == Seq::new(INTER_SIZE as nat, |_i: int| zero),
    {
        GtcrnState { conv: zeros(CONV_SIZE, zero), tra: zeros(TRA_SIZE, zero), inter: zeros(INTER_SIZE, zero) }
    }

    /// Clears all caches to `zero`.
    pub fn reset(&mut self, zero: T)
        ensures
            final(self).conv() == Seq::new(CONV_SIZE as nat, |_i: int| zero),
            final(self).tra() == Seq::new(TRA_SIZE as nat, |_i: int| zero),
            final(self).inter() == Seq::new(INTER_SIZE as nat, |_i: int| zero),
    {
        *self = GtcrnState::new(zero);
    }

    /// The caches to pass with the next frame: convolution, temporal, inter-frame.
    pub fn caches(&self) -> (r: (&[T], &[T], &[T]))
        ensures
            r.0@ == self.conv(),
            r.1@ == self.tra(),
            r.2@ == self.inter(),
    {
        (self.conv.as_slice(), self.tra.as_slice(), self.inter.as_slice())
    }

    /// Takes in one run of the model. Fails, keeping the caches, when the
    /// enhanced spectrum is short or a cache came back with the wrong
    /// length; otherwise adopts the caches and returns the spectrum's bins.
    pub fn accept(&mut self, enhanced: &[T], conv_out: &[T], tra_out: &[T], inter_out: &[T]) -> (r: Option<Vec<(T, T)>>)
        ensures
            r is Some <==> (enhanced.len() >= 2 * NUM_BINS && conv_out.len() == CONV_SIZE && tra_out.len() == TRA_SIZE
                && inter_out.len() == INTER_SIZE),
            r is None ==> (final(self).conv() == old(self).conv() && final(self).tra() == old(self).tra()
                && final(self).inter() == old(self).inter()),
            r matches Some(bins) ==> {
                &&& final(self).conv() == conv_out@
                &&& final(self).tra() == tra_out@
                &&& final(self).inter() == inter_out@
                &&& bins@ == pairs_of(enhanced@, NUM_BINS as nat)
            },
    {
        if enhanced.len() < 2 * NUM_BINS || conv_out.len() != CONV_SIZE || tra_out.len() != TRA_SIZE
            || inter_out.len() != INTER_SIZE {
            return None;
        }
        self.conv = copy_frame(conv_out);
        self.tra = copy_frame(tra_out);
        self.inter = copy_frame(inter_out);
        Some(deinterleave(enhanced, NUM_BINS))
    }
}

} // verus!
