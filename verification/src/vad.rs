//! The sample buffers of the voice activity detector: 512-sample frames at
//! 16 kHz, each passed to the model behind the last 64 samples of the frame
//! before it, and the model's recurrent state.

use vstd::prelude::*;
use crate::framing::{FrameAssembler, copy_frame};
use crate::model_state::zeros;

verus! {

/// Samples per detector frame.
pub const VAD_FRAME: usize = 512;

/// Samples of the previous frame that precede each frame.
pub const VAD_CONTEXT: usize = 64;

/// Length of the detector model's recurrent state.
pub const VAD_STATE_SIZE: usize = 256;

/// What the model is given for a frame: the context, then the frame.
pub open spec fn vad_input<T>(context: Seq<T>, frame: Seq<T>) -> Seq<T> {
    context + frame
}

/// The context a frame leaves for the next one: its last 64 samples.
pub open spec fn next_context<T>(frame: Seq<T>) -> Seq<T> {
    frame.skip(VAD_FRAME - VAD_CONTEXT)
}

/// The detector's buffers.
pub struct VadBuffers<T> {
    state: Vec<T>,
    context: Vec<T>,
    frame: FrameAssembler<T>,
}

impl<T> VadBuffers<T> {
    #[verifier::type_invariant]
    spec fn inv(self) -> bool {
        &&& self.state.len() == VAD_STATE_SIZE
        &&& self.context.len() == VAD_CONTEXT
        &&& self.frame.hop_len() == VAD_FRAME
    }
}

impl<T: Copy> VadBuffers<T> {
    /// The model's recurrent state.
    pub closed spec fn state(&self) -> Seq<T> {
        self.state@
    }

    /// The samples that precede the next frame.
    pub closed spec fn context(&self) -> Seq<T> {
        self.context@
    }

    /// The samples of the frame being filled.
    pub closed spec fn pending(&self) -> Seq<T> {
        self.frame.pending()
    }

    /// Buffers holding `zero` everywhere, with no frame begun.
    pub fn new(zero: T) -> (r: Self)
        ensures
            r.state() == Seq::new(VAD_STATE_SIZE as nat, |_i: int| zero),
            r.context() == Seq::new(VAD_CONTEXT as nat, |_i: int| zero),
            r.pending() == Seq::<T>::empty(),
    {
        VadBuffers {
            state: zeros(VAD_STATE_SIZE, zero),
            context: zeros(VAD_CONTEXT, zero),
            frame: FrameAssembler::new(VAD_FRAME),
        }
    }

    /// Clears everything back to `zero`.
    pub fn reset(&mut self, zero: T)
        ensures
            final(self).state() == Seq::new(VAD_STATE_SIZE as nat, |_i: int| zero),
            final(self).context() == Seq::new(VAD_CONTEXT as nat, |_i: int| zero),
            final(self).pending() == Seq::<T>::empty(),
    {
        *self = VadBuffers::new(zero);
    }

    /// Takes one 16 kHz sample; when it completes a frame, returns what the
    /// model is to be given for it and keeps the frame's tail as context.
    pub fn push(&mut self, sample: T) -> (r: Option<Vec<T>>)
        ensures
            final(self).state() == old(self).state(),
            old(self).pending().len() + 1 == VAD_FRAME ==> {
                &&& r matches Some(input)
                &&& input@ == vad_input(old(self).context(), old(self).pending().push(sample))
                &&& final(self).context() == next_context(old(self).pending().push(sample))
                &&& final(self).pending() == Seq::<T>::empty()
            },
            old(self).pending().len() + 1 != VAD_FRAME ==> {
                &&& r is None
                &&& final(self).context() == old(self).context()
                &&& final(self).pending() == old(self).pending().push(sample)
            },
    {
        proof {
            use_type_invariant(&*self);
        }
        let mut assembler = FrameAssembler::new(VAD_FRAME);
        std::mem::swap(&mut assembler, &mut self.frame);
        let done = assembler.push(sample);
        self.frame = assembler;
        match done {
            None => None,
            Some(frame) => {
                let mut input = copy_frame(self.context.as_slice());
                let mut i: usize = 0;
                while i < VAD_FRAME
                    invariant
                        frame@.len() == VAD_FRAME,
                        i <= VAD_FRAME,
                        input@ == self.context@ + frame@.take(i as int),
                    decreases VAD_FRAME - i,
                {
                    input.push(frame[i]);
                    i = i + 1;
                    assert(input@ =~= self.context@ + frame@.take(i as int));
                }
                assert(frame@.take(VAD_FRAME as int) =~= frame@);
                let mut context = Vec::with_capacity(VAD_CONTEXT);
                let mut j: usize = VAD_FRAME - VAD_CONTEXT;
                while j < VAD_FRAME
                    invariant
                        frame@.len() == VAD_FRAME,
                        VAD_FRAME - VAD_CONTEXT <= j <= VAD_FRAME,
                        context@ == frame@.subrange(VAD_FRAME - VAD_CONTEXT, j as int),
                    decreases VAD_FRAME - j,
                {
                    context.push(frame[j]);
                    j = j + 1;
                    assert(context@ =~= frame@.subrange(VAD_FRAME - VAD_CONTEXT, j as int));
                }
                assert(context@ =~= next_context(frame@));
                self.context = context;
                Some(input)
            },
        }
    }

    /// The state to pass with the next frame.
    pub fn current_state(&self) -> (r: &[T])
        ensures
            r@ == self.state(),
    {
        self.state.as_slice()
    }

    /// Adopts the state the model returned when it has the right length;
    /// returns whether it did.
    pub fn adopt_state(&mut self, out: &[T]) -> (r: bool)
        ensures
            r == (out.len() == VAD_STATE_SIZE),
            r ==> final(self).state() == out@,
            !r ==> final(self).state() == old(self).state(),
            final(self).context() == old(self).context(),
            final(self).pending() == old(self).pending(),
    {
        proof {
            use_type_invariant(&*self);
        }
        if out.len() != VAD_STATE_SIZE {
            return false;
        }
        self.state = copy_frame(out);
        true
    }
}

/// Frames overlap by the context: what the model is given for a frame
/// starts with the last 64 samples of the frame before it and ends with the
/// frame itself.
pub proof fn lemma_context_continuity<T>(prev: Seq<T>, frame: Seq<T>)
    requires
        prev.len() == VAD_FRAME,
        frame.len() == VAD_FRAME,
    ensures
        vad_input(next_context(prev), frame).len() == VAD_CONTEXT + VAD_FRAME,
        vad_input(next_context(prev), frame).take(VAD_CONTEXT as int) == prev.skip(VAD_FRAME - VAD_CONTEXT),
        vad_input(next_context(prev), frame).skip(VAD_CONTEXT as int) == frame,
{
    assert(vad_input(next_context(prev), frame).take(VAD_CONTEXT as int) =~= prev.skip(VAD_FRAME - VAD_CONTEXT));
    assert(vad_input(next_context(prev), frame).skip(VAD_CONTEXT as int) =~= frame);
}

} // verus!
