use voiceguard::event_hold::{EventHold, BREATH_WIND_HOLD, TRANSIENT_HOLD};
use voiceguard::gate::{GateObservation, GateTarget, SpeechGate, HANGOVER_FRAMES};

fn obs() -> GateObservation {
    GateObservation {
        speech_now: false,
        strong_onset: false,
        hard_artifact: false,
        quiet: false,
        very_quiet: false,
        below_ramp: false,
    }
}

#[test]
fn transient_holds_two_frames() {
    let mut h = EventHold::new();
    let mut active = vec![h.step(true, true)];
    for _ in 0..5 {
        active.push(h.step(false, false));
    }
    assert_eq!(TRANSIENT_HOLD, 2);
    assert_eq!(active, vec![true, true, false, false, false, false]);
}

#[test]
fn breath_holds_ten_frames() {
    let mut h = EventHold::new();
    let mut count = 0;
    if h.step(true, false) {
        count += 1;
    }
    for _ in 0..20 {
        if h.step(false, false) {
            count += 1;
        }
    }
    assert_eq!(count, BREATH_WIND_HOLD);
}

#[test]
fn idle_hold_is_inactive() {
    let mut h = EventHold::new();
    assert!(!h.step(false, true));
}

#[test]
fn speech_opens_and_hangover_lasts_nine_frames() {
    let mut g = SpeechGate::new();
    let mut o = obs();
    o.below_ramp = true;
    assert_eq!(g.step(o), GateTarget::Floor);
    let mut s = obs();
    s.speech_now = true;
    s.hard_artifact = true;
    assert_eq!(g.step(s), GateTarget::Open);
    for _ in 0..HANGOVER_FRAMES {
        assert_eq!(g.step(o), GateTarget::Open);
    }
    assert_eq!(g.step(o), GateTarget::Floor);
}

#[test]
fn hangover_artifact_goes_to_hangover_floor() {
    let mut g = SpeechGate::new();
    let mut s = obs();
    s.speech_now = true;
    g.step(s);
    let mut a = obs();
    a.hard_artifact = true;
    a.very_quiet = true;
    assert_eq!(g.step(a), GateTarget::HangoverFloor);
    a.very_quiet = false;
    assert_eq!(g.step(a), GateTarget::Open);
}

#[test]
fn onset_opens_provisionally_for_three_frames() {
    let mut g = SpeechGate::new();
    let mut on = obs();
    on.strong_onset = true;
    assert_eq!(g.step(on), GateTarget::Open);
    let mut hard = obs();
    hard.hard_artifact = true;
    hard.quiet = true;
    assert_eq!(g.step(hard), GateTarget::Floor);
    assert_eq!(g.step(obs()), GateTarget::Open);
    assert_eq!(g.step(obs()), GateTarget::Ramp);
}

#[test]
fn gate_reset_forgets_hangover() {
    let mut g = SpeechGate::new();
    let mut s = obs();
    s.speech_now = true;
    g.step(s);
    g.reset();
    let mut a = obs();
    a.hard_artifact = true;
    assert_eq!(g.step(a), GateTarget::Floor);
}
