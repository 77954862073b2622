//! The speech-keyed attenuator of the spectral engine: which gain level a frame aims
//! for, given what the voice detector and the artifact detector saw, with a
//! hangover after speech and a provisional opening on strong onsets.

use vstd::prelude::*;

verus! {

/// Non-speech frames the attenuator stays open after a speech frame.
pub const HANGOVER_FRAMES: usize = 9;

/// Frames a strong onset keeps the attenuator provisionally open.
pub const PROVISIONAL_FRAMES: usize = 3;

/// What one frame's detectors report to the attenuator.
#[derive(Clone, Copy)]
pub struct GateObservation {
    /// Speech probability at or above the voice threshold.
    pub speech_now: bool,
    /// The artifact detector saw a strong energy onset.
    pub strong_onset: bool,
    /// The artifact detector is confident of a non-speech artifact.
    pub hard_artifact: bool,
    /// Speech probability below 0.18.
    pub quiet: bool,
    /// Speech probability below 0.12.
    pub very_quiet: bool,
    /// Speech probability below 65% of the voice threshold.
    pub below_ramp: bool,
}

/// The gain level a frame aims for.
#[derive(Clone, Copy, PartialEq, Eq, Structural, Debug)]
pub enum GateTarget {
    /// Unity gain.
    Open,
    /// The configured floor gain.
    Floor,
    /// A quarter of the way from the floor to unity: an artifact during hangover.
    HangoverFloor,
    /// Between the floor and unity, in proportion to the speech probability.
    Ramp,
}

/// The attenuator's counters.
pub struct GateCounters {
    pub hangover: nat,
    pub provisional: nat,
}

/// One frame of the attenuator: the counters after it and the frame's target.
pub open spec fn gate_step(c: GateCounters, o: GateObservation) -> (GateCounters, GateTarget) {
    if o.speech_now {
        (GateCounters { hangover: HANGOVER_FRAMES as nat, provisional: 0 }, GateTarget::Open)
    } else {
        let p: nat = if o.strong_onset && !o.hard_artifact { PROVISIONAL_FRAMES as nat } else { c.provisional };
        if p > 0 {
            (
                GateCounters { hangover: c.hangover, provisional: (p - 1) as nat },
                if o.hard_artifact && o.quiet { GateTarget::Floor } else { GateTarget::Open },
            )
        } else if c.hangover > 0 {
            (
                GateCounters { hangover: (c.hangover - 1) as nat, provisional: 0 },
                if o.hard_artifact && o.very_quiet { GateTarget::HangoverFloor } else { GateTarget::Open },
            )
        } else {
            (
                GateCounters { hangover: 0, provisional: 0 },
                if o.hard_artifact || o.below_ramp { GateTarget::Floor } else { GateTarget::Ramp },
            )
        }
    }
}

/// The counters after a run of frames, and each frame's target.
pub open spec fn gate_run(c: GateCounters, obs: Seq<GateObservation>) -> (GateCounters, Seq<GateTarget>)
    decreases obs.len(),
{
    if obs.len() == 0 {
        (c, Seq::empty())
    } else {
        let (c1, targets) = gate_run(c, obs.drop_last());
        let (c2, t) = gate_step(c1, obs.last());
        (c2, targets.push(t))
    }
}

/// The speech-keyed attenuator state of one channel.
pub struct SpeechGate {
    hangover: usize,
    provisional: usize,
}

impl SpeechGate {
    #[verifier::type_invariant]
    spec fn inv(self) -> bool {
        &&& self.hangover <= HANGOVER_FRAMES
        &&& self.provisional <= PROVISIONAL_FRAMES
    }

    /// The counters.
    pub closed spec fn counters(&self) -> GateCounters {
        GateCounters { hangover: self.hangover as nat, provisional: self.provisional as nat }
    }

    /// A attenuator with no hangover and no provisional opening.
    pub fn new() -> (r: Self)
        ensures
            r.counters() == (GateCounters { hangover: 0, provisional: 0 }),
            counters_bounded(r.counters()),
    {
        SpeechGate { hangover: 0, provisional: 0 }
    }

    /// Forgets any hangover and provisional opening.
    pub fn reset(&mut self)
        ensures
            final(self).counters() == (GateCounters { hangover: 0, provisional: 0 }),
    {
        *self = SpeechGate { hangover: 0, provisional: 0 };
    }

    /// Decides one frame's target and advances the counters.
    pub fn step(&mut self, o: GateObservation) -> (t: GateTarget)
        ensures
            (final(self).counters(), t) == gate_step(old(self).counters(), o),
            counters_bounded(final(self).counters()),
            o.speech_now ==> t == GateTarget::Open && final(self).counters() == (GateCounters {
                hangover: HANGOVER_FRAMES as nat,
                provisional: 0,
            }),
            calm(o) && old(self).counters().provisional == 0 ==> {
                &&& final(self).counters().provisional == 0
                &&& old(self).counters().hangover > 0 ==> final(self).counters().hangover + 1
                    == old(self).counters().hangover
                &&& old(self).counters().hangover > 0 ==> (t == GateTarget::Open || t
                    == GateTarget::HangoverFloor)
                &&& old(self).counters().hangover == 0 ==> final(self).counters().hangover == 0
                &&& old(self).counters().hangover == 0 ==> (t == GateTarget::Floor || t
                    == GateTarget::Ramp)
            },
    {
        proof {
            if calm(o) && old(self).counters().provisional == 0 {
                lemma_calm_step(old(self).counters(), o);
            }
        }
        proof {
            use_type_invariant(&*self);
        }
        if o.speech_now {
            self.hangover = HANGOVER_FRAMES;
            self.provisional = 0;
            return GateTarget::Open;
        }
        if o.strong_onset && !o.hard_artifact {
            self.provisional = PROVISIONAL_FRAMES;
        }
        if self.provisional > 0 {
            self.provisional = self.provisional - 1;
            if o.hard_artifact && o.quiet {
                return GateTarget::Floor;
            }
            return GateTarget::Open;
        }
        if self.hangover > 0 {
            self.hangover = self.hangover - 1;
            if o.hard_artifact && o.very_quiet {
                return GateTarget::HangoverFloor;
            }
            return GateTarget::Open;
        }
        if o.hard_artifact || o.below_ramp {
            GateTarget::Floor
        } else {
            GateTarget::Ramp
        }
    }
}

/// A frame with speech opens the attenuator fully, whatever else was seen.
pub proof fn lemma_speech_opens(c: GateCounters, o: GateObservation)
    requires
        o.speech_now,
    ensures
        gate_step(c, o).1 == GateTarget::Open,
        gate_step(c, o).0 == (GateCounters { hangover: HANGOVER_FRAMES as nat, provisional: 0 }),
{
}

/// A strong onset without a hard artifact keeps the attenuator open for its own
/// frame.
pub proof fn lemma_onset_opens(c: GateCounters, o: GateObservation)
    requires
        o.strong_onset,
        !o.hard_artifact,
    ensures
        gate_step(c, o).1 == GateTarget::Open,
{
}

proof fn lemma_run_len(c: GateCounters, obs: Seq<GateObservation>)
    ensures
        gate_run(c, obs).1.len() == obs.len(),
    decreases obs.len(),
{
    if obs.len() > 0 {
        lemma_run_len(c, obs.drop_last());
    }
}

/// A run's targets are those of its prefixes: the target of frame `k` is
/// decided from the counters that the first `k` frames left.
proof fn lemma_run_prefix(c: GateCounters, obs: Seq<GateObservation>, k: int)
    requires
        0 <= k < obs.len(),
    ensures
        gate_run(c, obs).1[k] == gate_step(gate_run(c, obs.take(k)).0, obs[k]).1,
    decreases obs.len(),
{
    lemma_run_len(c, obs.drop_last());
    if k == obs.len() - 1 {
        assert(obs.drop_last() =~= obs.take(k));
    } else {
        lemma_run_prefix(c, obs.drop_last(), k);
        assert(obs.drop_last().take(k) =~= obs.take(k));
        assert(gate_run(c, obs).1[k] == gate_run(c, obs.drop_last()).1[k]);
    }
}

/// The hangover left after a run is at least nine minus the frames that
/// followed the last speech frame within the last nine.
proof fn lemma_hangover_after_speech(c: GateCounters, obs: Seq<GateObservation>, i: int)
    requires
        0 <= i < obs.len(),
        obs[i].speech_now,
        obs.len() - 1 - i <= HANGOVER_FRAMES,
    ensures
        gate_run(c, obs).0.hangover >= HANGOVER_FRAMES - (obs.len() - 1 - i),
    decreases obs.len(),
{
    if i < obs.len() - 1 {
        lemma_hangover_after_speech(c, obs.drop_last(), i);
    }
}

/// The attenuator holds open after speech: any frame at most nine frames after a
/// speech frame aims for unity gain unless that frame itself carries a hard
/// artifact.
pub proof fn lemma_hangover_holds_open(c: GateCounters, obs: Seq<GateObservation>, i: int, k: int)
    requires
        0 <= i <= k < obs.len(),
        obs[i].speech_now,
        k - i <= HANGOVER_FRAMES,
        !obs[k].hard_artifact,
    ensures
        gate_run(c, obs).1[k] == GateTarget::Open,
{
    lemma_run_prefix(c, obs, k);
    if i < k {
        let pre = obs.take(k);
        assert(pre[i] == obs[i]);
        lemma_hangover_after_speech(c, pre, i);
    }
}

/// The frames the attenuator is still held open for: the larger of the
/// two counters.
pub open spec fn open_budget(c: GateCounters) -> nat {
    if c.provisional > c.hangover { c.provisional } else { c.hangover }
}

/// Counters within the bounds that `SpeechGate` keeps.
pub open spec fn counters_bounded(c: GateCounters) -> bool {
    c.hangover <= HANGOVER_FRAMES && c.provisional <= PROVISIONAL_FRAMES
}

proof fn lemma_budget_step(c: GateCounters, o: GateObservation)
    requires
        counters_bounded(c),
    ensures
        counters_bounded(gate_step(c, o).0),
        open_budget(gate_step(c, o).0) + 1 >= open_budget(c),
        o.strong_onset && !o.hard_artifact ==> open_budget(gate_step(c, o).0) >= PROVISIONAL_FRAMES - 1,
        open_budget(c) >= 1 && !o.hard_artifact ==> gate_step(c, o).1 == GateTarget::Open,
{
}

proof fn lemma_budget_run(c: GateCounters, obs: Seq<GateObservation>)
    requires
        counters_bounded(c),
    ensures
        counters_bounded(gate_run(c, obs).0),
    decreases obs.len(),
{
    if obs.len() > 0 {
        lemma_budget_run(c, obs.drop_last());
        lemma_budget_step(gate_run(c, obs.drop_last()).0, obs.last());
    }
}

proof fn lemma_budget_after_onset(c: GateCounters, obs: Seq<GateObservation>, i: int)
    requires
        counters_bounded(c),
        0 <= i < obs.len(),
        obs[i].strong_onset,
        !obs[i].hard_artifact,
        obs.len() - 1 - i <= PROVISIONAL_FRAMES - 1,
    ensures
        open_budget(gate_run(c, obs).0) >= PROVISIONAL_FRAMES - 1 - (obs.len() - 1 - i),
    decreases obs.len(),
{
    lemma_budget_run(c, obs.drop_last());
    lemma_budget_step(gate_run(c, obs.drop_last()).0, obs.last());
    if i < obs.len() - 1 {
        lemma_budget_after_onset(c, obs.drop_last(), i);
    }
}

/// A strong onset without a hard artifact opens the attenuator
/// provisionally: that frame and the two after it aim for unity gain unless
/// the frame itself carries a hard artifact.
pub proof fn lemma_onset_holds_open(c: GateCounters, obs: Seq<GateObservation>, i: int, k: int)
    requires
        counters_bounded(c),
        0 <= i <= k < obs.len(),
        obs[i].strong_onset,
        !obs[i].hard_artifact,
        k - i < PROVISIONAL_FRAMES,
        !obs[k].hard_artifact,
    ensures
        gate_run(c, obs).1[k] == GateTarget::Open,
{
    lemma_run_prefix(c, obs, k);
    if i < k {
        let pre = obs.take(k);
        assert(pre[i] == obs[i]);
        lemma_budget_after_onset(c, pre, i);
        lemma_budget_run(c, pre);
        lemma_budget_step(gate_run(c, pre).0, obs[k]);
    }
}

/// A frame that neither carries speech nor a strong onset free of a hard
/// artifact.
pub open spec fn calm(o: GateObservation) -> bool {
    !o.speech_now && !(o.strong_onset && !o.hard_artifact)
}

/// A calm frame with no provisional opening spends exactly one frame of a
/// positive hangover, whatever else it carries, and aims for unity gain or the
/// hangover floor; with no hangover left it aims for the floor or the ramp.
pub proof fn lemma_calm_step(c: GateCounters, o: GateObservation)
    requires
        calm(o),
        c.provisional == 0,
    ensures
        gate_step(c, o).0.provisional == 0,
        c.hangover > 0 ==> gate_step(c, o).0.hangover + 1 == c.hangover,
        c.hangover > 0 ==> (gate_step(c, o).1 == GateTarget::Open || gate_step(c, o).1
            == GateTarget::HangoverFloor),
        c.hangover > 0 ==> (gate_step(c, o).1 == GateTarget::HangoverFloor <==> (o.hard_artifact
            && o.very_quiet)),
        c.hangover == 0 ==> gate_step(c, o).0.hangover == 0,
        c.hangover == 0 ==> (gate_step(c, o).1 == GateTarget::Floor || gate_step(c, o).1
            == GateTarget::Ramp),
        c.hangover == 0 ==> (gate_step(c, o).1 == GateTarget::Floor <==> (o.hard_artifact
            || o.below_ramp)),
{
}

/// The hangover after a speech frame followed only by calm frames: nine less
/// the number of calm frames, and never below zero; no provisional opening.
pub proof fn lemma_hangover_count(c: GateCounters, obs: Seq<GateObservation>, i: int)
    requires
        0 <= i < obs.len(),
        obs[i].speech_now,
        forall|j: int| i < j < obs.len() ==> calm(#[trigger] obs[j]),
    ensures
        gate_run(c, obs).0.provisional == 0,
        obs.len() - 1 - i <= HANGOVER_FRAMES ==> gate_run(c, obs).0.hangover == HANGOVER_FRAMES
            - (obs.len() - 1 - i),
        obs.len() - 1 - i >= HANGOVER_FRAMES ==> gate_run(c, obs).0.hangover == 0,
    decreases obs.len(),
{
    if i < obs.len() - 1 {
        let pre = obs.drop_last();
        assert forall|j: int| i < j < pre.len() implies calm(#[trigger] pre[j]) by {
            assert(pre[j] == obs[j]);
        }
        lemma_hangover_count(c, pre, i);
        assert(calm(obs[obs.len() - 1]));
        lemma_calm_step(gate_run(c, pre).0, obs.last());
    }
}

/// The hangover lasts exactly nine frames: after a speech frame followed only
/// by calm frames, each of the nine frames after it aims for unity gain or, on
/// a hard artifact in near silence, the hangover floor; every later frame aims
/// for the floor or the ramp.
pub proof fn lemma_hangover_length(c: GateCounters, obs: Seq<GateObservation>, i: int, k: int)
    requires
        0 <= i < k < obs.len(),
        obs[i].speech_now,
        forall|j: int| i < j < obs.len() ==> calm(#[trigger] obs[j]),
    ensures
        k - i <= HANGOVER_FRAMES ==> (gate_run(c, obs).1[k] == GateTarget::Open || gate_run(
            c,
            obs,
        ).1[k] == GateTarget::HangoverFloor),
        k - i <= HANGOVER_FRAMES ==> (gate_run(c, obs).1[k] == GateTarget::HangoverFloor <==> (
        obs[k].hard_artifact && obs[k].very_quiet)),
        k - i > HANGOVER_FRAMES ==> (gate_run(c, obs).1[k] == GateTarget::Floor || gate_run(
            c,
            obs,
        ).1[k] == GateTarget::Ramp),
        k - i > HANGOVER_FRAMES ==> (gate_run(c, obs).1[k] == GateTarget::Floor <==> (
        obs[k].hard_artifact || obs[k].below_ramp)),
{
    lemma_run_prefix(c, obs, k);
    let pre = obs.take(k);
    assert forall|j: int| i < j < pre.len() implies calm(#[trigger] pre[j]) by {
        assert(pre[j] == obs[j]);
    }
    assert(pre[i] == obs[i]);
    lemma_hangover_count(c, pre, i);
    assert(calm(obs[k]));
    lemma_calm_step(gate_run(c, pre).0, obs[k]);
}

} // verus!
