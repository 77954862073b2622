//! The per-channel bookkeeping of the plugin: hop framing of the input,
//! the lookahead queue in front of the DPDFNet worker, the event hold and
//! the output sample queue. The arithmetic on the samples themselves is done
//! by the caller between these steps.

use vstd::prelude::*;
use std::collections::VecDeque;
use crate::{HOP, REPORTED_LATENCY};
use crate::framing::{FrameAssembler, copy_frame};
use crate::model_state::zeros;
use crate::pending::{PendingFrame, PendingQueue, deliver_spec};
use crate::event_hold::{EventHold, hold_step};
use crate::worker::DpdfWorker;

verus! {

/// One audio channel's state apart from its analysers and worker.
pub struct ChannelCore<T, E> {
    input: FrameAssembler<T>,
    previous: Vec<T>,
    delayed: PendingQueue<T, E>,
    hold: EventHold,
    output: VecDeque<T>,
}

impl<T, E> ChannelCore<T, E> {
    /// Input samples received since the last complete hop.
    pub closed spec fn pending_input(&self) -> Seq<T> {
        self.input.pending()
    }

    /// The hop length of the input framing.
    pub closed spec fn hop_len(&self) -> nat {
        self.input.hop_len()
    }

    /// The last complete hop of input: the dry samples that go with the
    /// worker's answer to the next hop, which is that hop's enhancement
    /// delayed by one hop.
    pub closed spec fn previous_hop(&self) -> Seq<T> {
        self.previous@
    }

    /// Frames in the lookahead queue, oldest first.
    pub closed spec fn queued(&self) -> Seq<PendingFrame<T, E>> {
        self.delayed.frames()
    }

    /// Frames of event hold left.
    pub closed spec fn hold(&self) -> nat {
        self.hold.remaining()
    }

    /// Rendered samples not yet handed out, oldest first.
    pub closed spec fn output(&self) -> Seq<T> {
        self.output@
    }

    /// A channel with nothing received, queued or rendered: the dry delay
    /// line holds a hop of `silence`, and the output starts with
    /// `REPORTED_LATENCY - HOP` samples of `silence`, so that what the
    /// channel renders comes out `REPORTED_LATENCY` samples after it went in.
    pub fn new(silence: T) -> (r: Self)
        where T: Copy,
        ensures
            r.pending_input() == Seq::<T>::empty(),
            r.hop_len() == HOP,
            r.previous_hop() == Seq::new(HOP as nat, |_i: int| silence),
            r.queued() == Seq::<PendingFrame<T, E>>::empty(),
            r.hold() == 0,
            r.output() == Seq::new((REPORTED_LATENCY - HOP) as nat, |_i: int| silence),
    {
        let lead: usize = REPORTED_LATENCY as usize - HOP;
        let mut output: VecDeque<T> = VecDeque::new();
        let mut i: usize = 0;
        while i < lead
            invariant
                i <= lead,
                lead == REPORTED_LATENCY - HOP,
                output@ == Seq::new(i as nat, |_i: int| silence),
            decreases lead - i,
        {
            output.push_back(silence);
            i = i + 1;
            assert(output@ =~= Seq::new(i as nat, |_i: int| silence));
        }
        ChannelCore {
            input: FrameAssembler::new(HOP),
            previous: zeros(HOP, silence),
            delayed: PendingQueue::new(),
            hold: EventHold::new(),
            output,
        }
    }

    /// Takes one input sample; returns the hop it completes, if it does.
    pub fn push_input(&mut self, sample: T) -> (r: Option<Vec<T>>)
        ensures
            final(self).hop_len() == old(self).hop_len(),
            final(self).previous_hop() == old(self).previous_hop(),
            old(self).pending_input().len() + 1 == old(self).hop_len() ==> {
                &&& r matches Some(frame)
                &&& frame@ == old(self).pending_input().push(sample)
                &&& final(self).pending_input() == Seq::<T>::empty()
            },
            old(self).pending_input().len() + 1 != old(self).hop_len() ==> {
                &&& r is None
                &&& final(self).pending_input() == old(self).pending_input().push(sample)
            },
            final(self).queued() == old(self).queued(),
            final(self).hold() == old(self).hold(),
            final(self).output() == old(self).output(),
    {
        self.input.push(sample)
    }

    /// Offers a complete hop to the worker and queues a frame for it with
    /// its event analysis. The frame's dry samples are the hop before it,
    /// since the worker's answer to a hop is the enhancement of the hop
    /// before; the frame waits for that answer if the worker took the hop,
    /// and carries its dry samples as answer otherwise. The hop becomes the
    /// dry samples of the next frame. Returns whether the worker took it.
    pub fn submit(&mut self, worker: &mut DpdfWorker<Vec<T>>, raw: Vec<T>, event: E) -> (submitted: bool)
        where T: Copy,
        ensures
            !old(worker).accepts() ==> !submitted,
            submitted ==> {
                &&& final(worker).offered().len() == old(worker).offered().len() + 1
                &&& final(worker).offered().drop_last() == old(worker).offered()
                &&& final(worker).offered().last()@ == raw@
            },
            !submitted ==> final(worker).offered() == old(worker).offered(),
            final(worker).accepts() == old(worker).accepts(),
            final(worker).sender() == old(worker).sender(),
            final(worker).receiver() == old(worker).receiver(),
            final(self).queued().len() == old(self).queued().len() + 1,
            final(self).queued().drop_last() == old(self).queued(),
            final(self).queued().last().raw@ == old(self).previous_hop(),
            final(self).queued().last().event == event,
            submitted ==> final(self).queued().last().enhanced is None,
            !submitted ==> (final(self).queued().last().enhanced matches Some(e) && e@ == old(self).previous_hop()),
            final(self).previous_hop() == raw@,
            final(self).pending_input() == old(self).pending_input(),
            final(self).hop_len() == old(self).hop_len(),
            final(self).hold() == old(self).hold(),
            final(self).output() == old(self).output(),
    {
        let submitted = worker.submit(copy_frame(raw.as_slice()));
        let mut dry = raw;
        std::mem::swap(&mut dry, &mut self.previous);
        self.delayed.enqueue(dry, submitted, event);
        submitted
    }

    /// Collects one answer of the worker, if one is waiting, and attaches it
    /// to the oldest frame that waits for one. Returns whether an answer came.
    pub fn collect(&mut self, worker: &DpdfWorker<Vec<T>>) -> (got: bool)
        ensures
            got ==> exists|result: Vec<T>| final(self).queued() == deliver_spec(old(self).queued(), result),
            !got ==> final(self).queued() == old(self).queued(),
            final(self).pending_input() == old(self).pending_input(),
            final(self).hop_len() == old(self).hop_len(),
            final(self).previous_hop() == old(self).previous_hop(),
            final(self).hold() == old(self).hold(),
            final(self).output() == old(self).output(),
    {
        let answer = worker.take();
        self.accept_answer(answer)
    }

    /// Takes in what the worker handed back when asked for an answer:
    /// an answer is attached to the oldest frame that waits for one (and
    /// dropped when none waits); with no answer nothing changes. Returns
    /// whether there was an answer.
    pub fn accept_answer(&mut self, answer: Option<Vec<T>>) -> (got: bool)
        ensures
            got == (answer is Some),
            answer matches Some(result) ==> final(self).queued() == deliver_spec(old(self).queued(), result),
            answer is None ==> final(self).queued() == old(self).queued(),
            final(self).pending_input() == old(self).pending_input(),
            final(self).hop_len() == old(self).hop_len(),
            final(self).previous_hop() == old(self).previous_hop(),
            final(self).hold() == old(self).hold(),
            final(self).output() == old(self).output(),
    {
        match answer {
            Some(result) => {
                self.delayed.deliver(result);
                true
            },
            None => false,
        }
    }

    /// Takes the oldest queued frame for rendering once it is answered and
    /// more than `LOOKAHEAD` frames are queued.
    pub fn pop_ready(&mut self) -> (r: Option<PendingFrame<T, E>>)
        ensures
            ({
                let s = old(self).queued();
                if s.len() > crate::LOOKAHEAD && s[0].enhanced is Some {
                    &&& r == Some(s[0])
                    &&& final(self).queued() == s.drop_first()
                } else {
                    &&& r is None
                    &&& final(self).queued() == s
                }
            }),
            final(self).pending_input() == old(self).pending_input(),
            final(self).hop_len() == old(self).hop_len(),
            final(self).previous_hop() == old(self).previous_hop(),
            final(self).hold() == old(self).hold(),
            final(self).output() == old(self).output(),
    {
        self.delayed.pop_ready()
    }

    /// Takes every frame that may be rendered now, oldest first, as
    /// `PendingQueue::drain_ready` does.
    pub fn drain_ready(&mut self) -> (r: Vec<PendingFrame<T, E>>)
        ensures
            ({
                let s = old(self).queued();
                let k = r@.len() as int;
                &&& k <= s.len()
                &&& r@ == s.take(k)
                &&& final(self).queued() == s.skip(k)
                &&& forall|i: int| 0 <= i < k ==> (#[trigger] s[i]).enhanced is Some
                &&& (k == 0 || s.len() - k >= crate::LOOKAHEAD)
                &&& (s.len() - k <= crate::LOOKAHEAD || s[k].enhanced is None)
            }),
            final(self).pending_input() == old(self).pending_input(),
            final(self).hop_len() == old(self).hop_len(),
            final(self).previous_hop() == old(self).previous_hop(),
            final(self).hold() == old(self).hold(),
            final(self).output() == old(self).output(),
    {
        self.delayed.drain_ready()
    }

    /// Starts rendering a frame of `frame_len` samples. A frame that is not
    /// one hop long is replaced by a hop of `silence` and the event hold is
    /// left alone; returns whether the frame is to be rendered.
    pub fn begin_render(&mut self, frame_len: usize, silence: T) -> (render: bool)
        where T: Copy,
        ensures
            render == (frame_len == HOP),
            render ==> final(self).output() == old(self).output(),
            !render ==> final(self).output() == old(self).output() + Seq::new(HOP as nat, |_i: int| silence),
            final(self).queued() == old(self).queued(),
            final(self).pending_input() == old(self).pending_input(),
            final(self).hop_len() == old(self).hop_len(),
            final(self).previous_hop() == old(self).previous_hop(),
            final(self).hold() == old(self).hold(),
    {
        if frame_len == HOP {
            return true;
        }
        let mut i: usize = 0;
        while i < HOP
            invariant
                i <= HOP,
                self.output@ == old(self).output@ + Seq::new(i as nat, |_i: int| silence),
                self.input == old(self).input,
                self.previous == old(self).previous,
                self.delayed == old(self).delayed,
                self.hold == old(self).hold,
            decreases HOP - i,
        {
            self.output.push_back(silence);
            i = i + 1;
            assert(self.output@ =~= old(self).output@ + Seq::new(i as nat, |_i: int| silence));
        }
        false
    }

    /// Advances the event hold by one rendered frame; returns whether the
    /// event attenuator is engaged for it.
    pub fn event_step(&mut self, triggered: bool, transient_led: bool) -> (active: bool)
        ensures
            (final(self).hold(), active) == hold_step(old(self).hold(), triggered, transient_led),
            final(self).queued() == old(self).queued(),
            final(self).pending_input() == old(self).pending_input(),
            final(self).hop_len() == old(self).hop_len(),
            final(self).previous_hop() == old(self).previous_hop(),
            final(self).output() == old(self).output(),
    {
        self.hold.step(triggered, transient_led)
    }

    /// Appends one rendered sample to the output.
    pub fn emit(&mut self, sample: T)
        ensures
            final(self).output() == old(self).output().push(sample),
            final(self).queued() == old(self).queued(),
            final(self).pending_input() == old(self).pending_input(),
            final(self).hop_len() == old(self).hop_len(),
            final(self).previous_hop() == old(self).previous_hop(),
            final(self).hold() == old(self).hold(),
    {
        self.output.push_back(sample);
    }

    /// Hands out the oldest rendered sample, or `silence` while nothing has
    /// been rendered.
    pub fn next_output(&mut self, silence: T) -> (r: T)
        ensures
            old(self).output().len() > 0 ==> {
                &&& r == old(self).output()[0]
                &&& final(self).output() == old(self).output().drop_first()
            },
            old(self).output().len() == 0 ==> {
                &&& r == silence
                &&& final(self).output() == old(self).output()
            },
            final(self).queued() == old(self).queued(),
            final(self).pending_input() == old(self).pending_input(),
            final(self).hop_len() == old(self).hop_len(),
            final(self).previous_hop() == old(self).previous_hop(),
            final(self).hold() == old(self).hold(),
    {
        match self.output.pop_front() {
            Some(x) => x,
            None => silence,
        }
    }
}

} // verus!
