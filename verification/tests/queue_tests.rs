use voiceguard::pending::PendingQueue;
use voiceguard::LOOKAHEAD;

#[test]
fn refused_frame_carries_its_dry_samples() {
    let mut q: PendingQueue<u32, u8> = PendingQueue::new();
    q.enqueue(vec![1, 2], false, 7);
    q.enqueue(vec![3, 4], true, 8);
    assert_eq!(q.len(), 2);
    // neither may leave: not enough frames behind them
    assert!(q.pop_ready().is_none());
}

#[test]
fn answers_go_to_oldest_waiting_frame() {
    let mut q: PendingQueue<u32, u8> = PendingQueue::new();
    q.enqueue(vec![1], true, 0);
    q.enqueue(vec![2], false, 1);
    q.enqueue(vec![3], true, 2);
    assert!(q.deliver(vec![10]));
    assert!(q.deliver(vec![30]));
    assert!(!q.deliver(vec![99]));
    for i in 0..LOOKAHEAD {
        q.enqueue(vec![100 + i as u32], false, 9);
    }
    let f0 = q.pop_ready().unwrap();
    assert_eq!((f0.raw, f0.enhanced, f0.event), (vec![1], Some(vec![10]), 0));
    let f1 = q.pop_ready().unwrap();
    assert_eq!((f1.raw, f1.enhanced, f1.event), (vec![2], Some(vec![2]), 1));
    let f2 = q.pop_ready().unwrap();
    assert_eq!((f2.raw, f2.enhanced, f2.event), (vec![3], Some(vec![30]), 2));
    assert_eq!(q.len(), LOOKAHEAD);
    assert!(q.pop_ready().is_none());
}

#[test]
fn waiting_front_blocks_release() {
    let mut q: PendingQueue<u32, ()> = PendingQueue::new();
    q.enqueue(vec![1], true, ());
    for _ in 0..LOOKAHEAD + 3 {
        q.enqueue(vec![2], false, ());
    }
    assert!(q.pop_ready().is_none());
    assert!(q.deliver(vec![5]));
    assert_eq!(q.pop_ready().unwrap().enhanced, Some(vec![5]));
}

#[test]
fn drain_ready_stops_at_lookahead_or_waiting_frame() {
    let mut q: PendingQueue<u32, u32> = PendingQueue::new();
    for i in 0..3u32 {
        q.enqueue(vec![i], false, i);
    }
    q.enqueue(vec![3], true, 3);
    for i in 4..10u32 {
        q.enqueue(vec![i], false, i);
    }
    let out = q.drain_ready();
    assert_eq!(out.iter().map(|f| f.event).collect::<Vec<_>>(), vec![0, 1, 2]);
    assert_eq!(q.len(), 7);
    assert!(q.deliver(vec![33]));
    let out = q.drain_ready();
    assert_eq!(out.iter().map(|f| f.event).collect::<Vec<_>>(), vec![3, 4, 5]);
    assert_eq!(out[0].enhanced, Some(vec![33]));
    assert_eq!(q.len(), LOOKAHEAD);
    assert!(q.drain_ready().is_empty());
}
