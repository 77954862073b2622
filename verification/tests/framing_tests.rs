use voiceguard::framing::{copy_frame, deinterleave, interleave, slide_in, slide_out, take_front, FrameAssembler};

#[test]
fn assembler_emits_one_frame_per_hop() {
    let mut a: FrameAssembler<u32> = FrameAssembler::new(3);
    assert_eq!(a.push(1), None);
    assert_eq!(a.push(2), None);
    assert_eq!(a.pending_len(), 2);
    assert_eq!(a.push(3), Some(vec![1, 2, 3]));
    assert_eq!(a.pending_len(), 0);
    assert_eq!(a.push(4), None);
    assert_eq!(a.pending_len(), 1);
}

#[test]
fn assembler_stream_is_chunked_in_order() {
    let mut a: FrameAssembler<u32> = FrameAssembler::new(4);
    let mut out = Vec::new();
    for x in 0..10u32 {
        if let Some(f) = a.push(x) {
            assert_eq!(f.len(), 4);
            out.extend(f);
        }
    }
    assert_eq!(out, (0..8).collect::<Vec<u32>>());
    assert_eq!(a.pending_len(), 2);
}

#[test]
fn assembler_clear_drops_pending() {
    let mut a: FrameAssembler<u8> = FrameAssembler::new(2);
    a.push(7);
    a.clear();
    assert_eq!(a.pending_len(), 0);
    assert_eq!(a.push(1), None);
    assert_eq!(a.push(2), Some(vec![1, 2]));
}

#[test]
fn slide_in_shifts_and_appends() {
    let mut w = vec![1, 2, 3, 4, 5, 6];
    slide_in(&mut w, &[7, 8]);
    assert_eq!(w, vec![3, 4, 5, 6, 7, 8]);
    let mut v = vec![1, 2];
    slide_in(&mut v, &[9, 10]);
    assert_eq!(v, vec![9, 10]);
    let mut u = vec![1, 2, 3];
    slide_in(&mut u, &[]);
    assert_eq!(u, vec![1, 2, 3]);
}

#[test]
fn slide_out_shifts_and_zero_fills() {
    let mut b = vec![1.0f32, 2.0, 3.0, 4.0];
    slide_out(&mut b, 2, 0.0);
    assert_eq!(b, vec![3.0, 4.0, 0.0, 0.0]);
}

#[test]
fn take_front_and_copy() {
    assert_eq!(take_front(&[5, 6, 7], 2), vec![5, 6]);
    assert_eq!(copy_frame(&[1u8, 2, 3]), vec![1, 2, 3]);
}

#[test]
fn interleave_round_trip() {
    let p = vec![(1, 2), (3, 4), (5, 6)];
    let flat = interleave(&p);
    assert_eq!(flat, vec![1, 2, 3, 4, 5, 6]);
    assert_eq!(deinterleave(&flat, 3), p);
    assert_eq!(deinterleave(&[9, 8, 7, 6, 5], 2), vec![(9, 8), (7, 6)]);
}
