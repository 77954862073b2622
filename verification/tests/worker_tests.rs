use voiceguard::channel::ChannelCore;
use voiceguard::worker::{DfWorker, DpdfWorker};
use voiceguard::{HOP, LOOKAHEAD, REPORTED_LATENCY};

#[test]
fn unready_worker_takes_nothing() {
    let (tx, _rx_in) = crossbeam_channel::bounded::<Vec<f32>>(6);
    let (_tx_out, rx) = crossbeam_channel::bounded::<Vec<f32>>(6);
    let mut w = DpdfWorker::new(tx, false, rx);
    assert!(!w.submit(vec![1.0]));
    assert!(w.take().is_none());
}

#[test]
fn ready_worker_round_trip() {
    let (tx, rx_in) = crossbeam_channel::bounded::<Vec<f32>>(1);
    let (tx_out, rx) = crossbeam_channel::bounded::<Vec<f32>>(1);
    let mut w = DpdfWorker::new(tx, true, rx);
    assert!(w.submit(vec![1.0, 2.0]));
    // channel of capacity one is now full
    assert!(!w.submit(vec![3.0]));
    assert_eq!(rx_in.try_recv().unwrap(), vec![1.0, 2.0]);
    tx_out.send(vec![0.5]).unwrap();
    assert_eq!(w.take(), Some(vec![0.5]));
    assert_eq!(w.take(), None);
}

#[test]
fn disconnected_worker_refuses() {
    let (tx, rx_in) = crossbeam_channel::bounded::<u8>(4);
    let (_tx_out, rx) = crossbeam_channel::bounded::<u8>(4);
    drop(rx_in);
    let mut w = DpdfWorker::new(tx, true, rx);
    assert!(!w.submit(1));
}

#[test]
fn df_worker_without_link() {
    let mut w: DfWorker<Vec<f32>> = DfWorker::new(None);
    assert!(!w.submit(vec![0.0]));
    assert!(w.take().is_none());
}

#[test]
fn df_worker_with_link() {
    let (tx, rx_in) = crossbeam_channel::bounded::<u32>(8);
    let (tx_out, rx) = crossbeam_channel::bounded::<u32>(8);
    let mut w = DfWorker::new(Some((tx, rx)));
    assert!(w.submit(4));
    assert_eq!(rx_in.recv().unwrap(), 4);
    tx_out.send(9).unwrap();
    assert_eq!(w.take(), Some(9));
}

#[test]
fn channel_core_releases_after_lookahead() {
    let (tx, rx_in) = crossbeam_channel::bounded::<Vec<f32>>(16);
    let (tx_out, rx) = crossbeam_channel::bounded::<Vec<f32>>(16);
    let mut w = DpdfWorker::new(tx, true, rx);
    let mut ch: ChannelCore<f32, u32> = ChannelCore::new(0.0);
    let lead = REPORTED_LATENCY as usize - HOP;
    assert_eq!(lead, (LOOKAHEAD + 1) * HOP);
    let mut released = Vec::new();
    for n in 0..(LOOKAHEAD + 2) * HOP + 2 {
        if let Some(frame) = ch.push_input(n as f32 + 1.0) {
            let id = (n / HOP) as u32;
            assert!(ch.submit(&mut w, frame, id));
            // the worker answers with the hop negated
            let got = rx_in.try_recv().unwrap();
            tx_out.send(got.iter().map(|x| -x).collect()).unwrap();
        }
        while ch.collect(&w) {}
        for p in ch.drain_ready() {
            released.push((n, p.event));
            let k = p.event as usize;
            // the dry samples are the hop before the answered one
            let dry0 = if k == 0 { 0.0 } else { ((k - 1) * HOP) as f32 + 1.0 };
            assert_eq!(p.raw[0], dry0);
            let e = p.enhanced.unwrap();
            assert_eq!(e[0], -((k * HOP) as f32 + 1.0));
            assert!(ch.begin_render(e.len(), 0.0));
            assert!(!ch.event_step(false, false));
            for x in e {
                ch.emit(x);
            }
        }
        let y = ch.next_output(9.0);
        if n < lead {
            assert_eq!(y, 0.0, "call {n}");
        } else {
            assert_eq!(y, -((n - lead) as f32 + 1.0), "call {n}");
        }
    }
    assert_eq!(released, vec![(lead - 1, 0), (lead + HOP - 1, 1)]);
}

#[test]
fn channel_core_short_frame_renders_silence() {
    let mut ch: ChannelCore<f32, ()> = ChannelCore::new(0.0);
    assert!(!ch.begin_render(3, 0.0));
    for _ in 0..REPORTED_LATENCY {
        assert_eq!(ch.next_output(9.0), 0.0);
    }
    assert_eq!(ch.next_output(9.0), 9.0);
}

#[test]
fn accept_answer_fills_oldest_waiting_frame() {
    let (tx, _rx_in) = crossbeam_channel::bounded::<Vec<f32>>(16);
    let (_tx_out, rx) = crossbeam_channel::bounded::<Vec<f32>>(16);
    let mut w = DpdfWorker::new(tx, true, rx);
    let mut ch: ChannelCore<f32, u32> = ChannelCore::new(0.0);
    assert!(ch.submit(&mut w, vec![1.0; HOP], 0));
    assert!(!ch.accept_answer(None));
    assert!(ch.accept_answer(Some(vec![2.0; HOP])));
    for i in 1..=LOOKAHEAD as u32 {
        assert!(ch.submit(&mut w, vec![3.0; HOP], i));
    }
    let ready = ch.drain_ready();
    assert_eq!(ready.len(), 1);
    assert_eq!(ready[0].enhanced, Some(vec![2.0; HOP]));
    assert_eq!(ready[0].raw, vec![0.0; HOP]);
    assert!(ch.accept_answer(Some(vec![4.0; HOP])));
    assert!(ch.submit(&mut w, vec![3.0; HOP], 9));
    let ready = ch.drain_ready();
    assert_eq!(ready.len(), 1);
    assert_eq!(ready[0].raw, vec![1.0; HOP]);
    assert_eq!(ready[0].enhanced, Some(vec![4.0; HOP]));
}

#[test]
fn refused_frames_come_out_after_reported_latency() {
    let (tx, _rx_in) = crossbeam_channel::bounded::<Vec<f32>>(1);
    let (_tx_out, rx) = crossbeam_channel::bounded::<Vec<f32>>(1);
    let mut w = DpdfWorker::new(tx, false, rx);
    let mut ch: ChannelCore<f32, ()> = ChannelCore::new(0.0);
    let delay = REPORTED_LATENCY as usize;
    assert_eq!(delay, 2880);
    let input = |n: usize| (n % 1000) as f32 / 1000.0 + 0.0005;
    for n in 0..delay + 3 * HOP {
        if let Some(frame) = ch.push_input(input(n)) {
            assert!(!ch.submit(&mut w, frame, ()));
        }
        while ch.collect(&w) {}
        for pending in ch.drain_ready() {
            let e = pending.enhanced.unwrap();
            assert_eq!(e, pending.raw);
            assert!(ch.begin_render(e.len(), 0.0));
            for x in e {
                ch.emit(x);
            }
        }
        let y = ch.next_output(9.0);
        if n < delay {
            assert_eq!(y, 0.0, "call {n}");
        } else {
            assert_eq!(y, input(n - delay), "call {n}");
        }
    }
}
