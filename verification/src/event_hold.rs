//! How long an impact, breath or wind event keeps the event attenuator
//! engaged once detected.

use vstd::prelude::*;

verus! {

/// Frames a transient-led event stays engaged, counting the frame it was detected in.
pub const TRANSIENT_HOLD: usize = 2;

/// Frames a breath- or wind-led event stays engaged, counting the frame it was detected in.
pub const BREATH_WIND_HOLD: usize = 10;

/// One frame of the hold counter: the remaining hold and whether this frame
/// is engaged, given the hold before it and what the event analysis saw.
pub open spec fn hold_step(hold: nat, triggered: bool, transient_led: bool) -> (nat, bool) {
    let h: nat = if triggered {
        if transient_led { TRANSIENT_HOLD as nat } else { BREATH_WIND_HOLD as nat }
    } else {
        hold
    };
    if h > 0 { ((h - 1) as nat, true) } else { (0nat, false) }
}

/// The hold after a run of frames, and whether each frame was engaged;
/// each input is `(triggered, transient_led)`.
pub open spec fn hold_run(hold: nat, inputs: Seq<(bool, bool)>) -> (nat, Seq<bool>)
    decreases inputs.len(),
{
    if inputs.len() == 0 {
        (hold, Seq::empty())
    } else {
        let (h, active) = hold_run(hold, inputs.drop_last());
        let (h2, a) = hold_step(h, inputs.last().0, inputs.last().1);
        (h2, active.push(a))
    }
}

/// The event hold counter of one channel.
pub struct EventHold {
    hold: usize,
}

impl EventHold {
    #[verifier::type_invariant]
    spec fn inv(self) -> bool {
        self.hold < BREATH_WIND_HOLD
    }

    /// Frames of hold left.
    pub closed spec fn remaining(&self) -> nat {
        self.hold as nat
    }

    /// A counter with no hold left.
    pub fn new() -> (r: Self)
        ensures
            r.remaining() == 0,
    {
        EventHold { hold: 0 }
    }

    /// Advances by one frame. `triggered` says the frame's strongest event
    /// crossed the detection threshold, `transient_led` that a transient,
    /// not breath or wind, led it. Returns whether the frame is engaged.
    pub fn step(&mut self, triggered: bool, transient_led: bool) -> (active: bool)
        ensures
            (final(self).remaining(), active) == hold_step(old(self).remaining(), triggered, transient_led),
    {
        proof {
            use_type_invariant(&*self);
        }
        let h = if triggered {
            if transient_led { TRANSIENT_HOLD } else { BREATH_WIND_HOLD }
        } else {
            self.hold
        };
        if h > 0 {
            self.hold = h - 1;
            true
        } else {
            self.hold = 0;
            false
        }
    }
}

/// With no trigger, a hold of `h` keeps exactly the next `h` frames engaged
/// and then counts down to zero.
pub proof fn lemma_hold_counts_down(h: nat, inputs: Seq<(bool, bool)>)
    requires
        forall|k: int| 0 <= k < inputs.len() ==> !(#[trigger] inputs[k]).0,
    ensures
        hold_run(h, inputs).1.len() == inputs.len(),
        hold_run(h, inputs).0 == if h >= inputs.len() { (h - inputs.len()) as nat } else { 0nat },
        forall|k: int| 0 <= k < inputs.len() ==> #[trigger] hold_run(h, inputs).1[k] == (k < h),
    decreases inputs.len(),
{
    if inputs.len() > 0 {
        let prev = inputs.drop_last();
        assert forall|k: int| 0 <= k < prev.len() implies !(#[trigger] prev[k]).0 by {
            assert(prev[k] == inputs[k]);
        }
        lemma_hold_counts_down(h, prev);
    }
}

/// An event keeps the attenuator engaged for the frame it is detected in
/// and the frames after it: two frames in all for a transient, ten for
/// breath or wind, as long as no new event arrives; then it releases.
pub proof fn lemma_event_hold_duration(hold: nat, transient_led: bool, rest: Seq<(bool, bool)>)
    requires
        forall|k: int| 0 <= k < rest.len() ==> !(#[trigger] rest[k]).0,
    ensures
        ({
            let inputs = seq![(true, transient_led)] + rest;
            let duration: int = if transient_led { TRANSIENT_HOLD as int } else { BREATH_WIND_HOLD as int };
            let active = hold_run(hold, inputs).1;
            &&& active.len() == inputs.len()
            &&& forall|k: int| 0 <= k < inputs.len() ==> #[trigger] active[k] == (k < duration)
        }),
    decreases rest.len(),
{
    let inputs = seq![(true, transient_led)] + rest;
    let duration: int = if transient_led { TRANSIENT_HOLD as int } else { BREATH_WIND_HOLD as int };
    if rest.len() == 0 {
        assert(inputs.drop_last() =~= Seq::<(bool, bool)>::empty());
        assert(inputs.last() == (true, transient_led));
        assert(hold_run(hold, inputs.drop_last()).1 =~= Seq::<bool>::empty());
        assert(hold_run(hold, inputs).1 =~= seq![true]);
    } else {
        let shorter = rest.drop_last();
        assert forall|k: int| 0 <= k < shorter.len() implies !(#[trigger] shorter[k]).0 by {
            assert(shorter[k] == rest[k]);
        }
        lemma_event_hold_duration(hold, transient_led, shorter);
        assert(inputs.drop_last() =~= seq![(true, transient_led)] + shorter);
        lemma_hold_after_trigger(hold, transient_led, shorter);
        assert(inputs.last() == rest.last());
        assert(!rest.last().0);
        let prev_active = hold_run(hold, inputs.drop_last()).1;
        let active = hold_run(hold, inputs).1;
        assert(active == prev_active.push(active.last()));
        assert forall|k: int| 0 <= k < inputs.len() implies #[trigger] active[k] == (k < duration) by {
            if k < inputs.len() - 1 {
                assert(active[k] == prev_active[k]);
            }
        }
    }
}

proof fn lemma_hold_after_trigger(hold: nat, transient_led: bool, rest: Seq<(bool, bool)>)
    requires
        forall|k: int| 0 <= k < rest.len() ==> !(#[trigger] rest[k]).0,
    ensures
        ({
            let duration: int = if transient_led { TRANSIENT_HOLD as int } else { BREATH_WIND_HOLD as int };
            hold_run(hold, seq![(true, transient_led)] + rest).0 == if duration - 1 >= rest.len() {
                (duration - 1 - rest.len()) as nat
            } else {
                0nat
            }
        }),
    decreases rest.len(),
{
    if rest.len() > 0 {
        let shorter = rest.drop_last();
        assert forall|k: int| 0 <= k < shorter.len() implies !(#[trigger] shorter[k]).0 by {
            assert(shorter[k] == rest[k]);
        }
        lemma_hold_after_trigger(hold, transient_led, shorter);
        assert((seq![(true, transient_led)] + rest).drop_last() =~= seq![(true, transient_led)] + shorter);
        assert(rest.last() == (seq![(true, transient_led)] + rest).last());
    } else {
        assert((seq![(true, transient_led)] + rest).drop_last() =~= Seq::<(bool, bool)>::empty());
    }
}

} // verus!
