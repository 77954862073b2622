use voiceguard::metadata::{parse_usize, split_fields};
use voiceguard::model_state::{adopt_state, initial_state, zeros, DpdfModelState, GtcrnState, CONV_SIZE, DPDF_BINS, INTER_SIZE, TRA_SIZE};
use voiceguard::spectrum::{event_band, fft_geometry, plosive_band, reported_latency_samples, EventBand, PlosiveBand, NUM_BINS};
use voiceguard::vad::{VadBuffers, VAD_CONTEXT, VAD_FRAME, VAD_STATE_SIZE};

#[test]
fn geometry_at_48k() {
    let g = fft_geometry(1536);
    assert_eq!((g.nfft, g.hop, g.bins, g.high_bins), (1536, 768, 769, 512));
    assert_eq!(reported_latency_samples(&g), 768);
}

#[test]
fn geometry_rounds_odd_up() {
    let g = fft_geometry(1411);
    assert_eq!((g.nfft, g.hop, g.bins, g.high_bins), (1412, 706, 707, 450));
    let s = fft_geometry(100);
    assert_eq!((s.nfft, s.hop, s.bins, s.high_bins), (100, 50, 51, 0));
    let m = fft_geometry(512);
    assert_eq!(m.bins, NUM_BINS);
    assert_eq!(m.high_bins, 0);
}

#[test]
fn event_bands() {
    assert_eq!(event_band(0), Some(EventBand::Low));
    assert_eq!(event_band(2), Some(EventBand::Low));
    assert_eq!(event_band(3), Some(EventBand::Voice));
    assert_eq!(event_band(40), Some(EventBand::Voice));
    assert_eq!(event_band(41), None);
    assert_eq!(event_band(50), None);
    assert_eq!(event_band(51), Some(EventBand::High));
    assert_eq!(event_band(240), Some(EventBand::High));
}

#[test]
fn plosive_bands() {
    assert_eq!(plosive_band(0), PlosiveBand::Full);
    assert_eq!(plosive_band(4), PlosiveBand::Full);
    assert_eq!(plosive_band(5), PlosiveBand::Taper);
    assert_eq!(plosive_band(10), PlosiveBand::Taper);
    assert_eq!(plosive_band(11), PlosiveBand::Untouched);
}

#[test]
fn dpdf_initial_state() {
    let s = initial_state(6, 2, 1, &[1.0f32, 2.0], &[3.0], 0.0).unwrap();
    assert_eq!(s, vec![1.0, 2.0, 3.0, 0.0, 0.0, 0.0]);
    assert!(initial_state(6, 3, 1, &[1.0f32, 2.0], &[3.0], 0.0).is_err());
    assert!(initial_state(6, 2, 2, &[1.0f32, 2.0], &[3.0], 0.0).is_err());
    assert!(initial_state(2, 2, 1, &[1.0f32, 2.0], &[3.0], 0.0).is_err());
    assert_eq!(initial_state(3, 2, 1, &[1.0f32, 2.0], &[3.0], 0.0).unwrap(), vec![1.0, 2.0, 3.0]);
}

#[test]
fn dpdf_accept() {
    let mut st = DpdfModelState::new(vec![0.0f32; 4]);
    let enhanced: Vec<f32> = (0..2 * DPDF_BINS).map(|i| i as f32).collect();
    assert!(st.accept(&enhanced[..10], &[1.0; 4], 0.0).is_err());
    assert!(st.accept(&enhanced, &[1.0; 3], 0.0).is_err());
    assert_eq!(st.current(), &[0.0; 4]);
    let bins = st.accept(&enhanced, &[1.0; 4], 0.0).unwrap();
    assert_eq!(bins.len(), DPDF_BINS);
    assert_eq!(bins[0], (0.0, 0.0));
    assert_eq!(bins[1], (2.0, 3.0));
    assert_eq!(bins[DPDF_BINS - 1], ((2 * DPDF_BINS - 2) as f32, 0.0));
    assert_eq!(st.current(), &[1.0; 4]);
}

#[test]
fn gtcrn_accept() {
    let mut st = GtcrnState::new(0.0f32);
    let enhanced: Vec<f32> = (0..2 * NUM_BINS).map(|i| i as f32).collect();
    let conv = vec![1.0f32; CONV_SIZE];
    let tra = vec![2.0f32; TRA_SIZE];
    let inter = vec![3.0f32; INTER_SIZE];
    assert!(st.accept(&enhanced, &conv[1..], &tra, &inter).is_none());
    assert_eq!(st.caches().1, &vec![0.0f32; TRA_SIZE][..]);
    let bins = st.accept(&enhanced, &conv, &tra, &inter).unwrap();
    assert_eq!(bins.len(), NUM_BINS);
    assert_eq!(bins[256], (512.0, 513.0));
    assert_eq!(st.caches().2, &inter[..]);
    st.reset(0.0);
    assert_eq!(st.caches().0, &vec![0.0f32; CONV_SIZE][..]);
}

#[test]
fn adopt_state_checks_length() {
    let mut s = vec![0u8; 3];
    assert!(!adopt_state(&mut s, &[1, 2]));
    assert_eq!(s, vec![0, 0, 0]);
    assert!(adopt_state(&mut s, &[1, 2, 3]));
    assert_eq!(s, vec![1, 2, 3]);
    assert_eq!(zeros(3, 7u8), vec![7, 7, 7]);
}

#[test]
fn metadata_lists_split_on_commas() {
    let parts = split_fields(b"0.5,1e-3,,abc", b',');
    assert_eq!(parts, vec![b"0.5".to_vec(), b"1e-3".to_vec(), Vec::new(), b"abc".to_vec()]);
    assert_eq!(split_fields(b"", b','), vec![Vec::<u8>::new()]);
    assert_eq!(split_fields(b",", b','), vec![Vec::<u8>::new(), Vec::new()]);
}

#[test]
fn vad_frames_carry_context() {
    let mut v = VadBuffers::new(0.0f32);
    let mut inputs = Vec::new();
    for n in 0..2 * VAD_FRAME {
        if let Some(input) = v.push(n as f32 + 1.0) {
            inputs.push(input);
        }
    }
    assert_eq!(inputs.len(), 2);
    assert_eq!(inputs[0].len(), VAD_CONTEXT + VAD_FRAME);
    assert!(inputs[0][..VAD_CONTEXT].iter().all(|&x| x == 0.0));
    assert_eq!(inputs[0][VAD_CONTEXT], 1.0);
    assert_eq!(inputs[1][0], (VAD_FRAME - VAD_CONTEXT + 1) as f32);
    assert_eq!(inputs[1][VAD_CONTEXT], (VAD_FRAME + 1) as f32);
    assert!(!v.adopt_state(&[1.0; 3]));
    assert!(v.adopt_state(&vec![1.0; VAD_STATE_SIZE]));
    assert_eq!(v.current_state()[0], 1.0);
    v.reset(0.0);
    assert_eq!(v.current_state()[0], 0.0);
}

#[test]
fn split_fields_join_back() {
    let text = b"1.5,,-2,3e4,";
    let parts = split_fields(text, b',');
    assert_eq!(parts.len(), 5);
    assert!(parts.iter().all(|p| !p.contains(&b',')));
    assert_eq!(parts.join(&b','), text.to_vec());
}

#[test]
fn reported_latency_is_sixty_ms_at_48k() {
    assert_eq!(voiceguard::REPORTED_LATENCY as usize, 6 * voiceguard::HOP);
    assert_eq!(voiceguard::REPORTED_LATENCY as u64 * 1000, 60 * 48_000);
}

#[test]
fn metadata_sizes_parse_as_usize() {
    assert_eq!(parse_usize(b"0"), Some(0));
    assert_eq!(parse_usize(b"1234"), Some(1234));
    assert_eq!(parse_usize(b"+42"), Some(42));
    assert_eq!(parse_usize(b""), None);
    assert_eq!(parse_usize(b"+"), None);
    assert_eq!(parse_usize(b"-1"), None);
    assert_eq!(parse_usize(b"12a"), None);
    assert_eq!(parse_usize(b" 1"), None);
    assert_eq!(parse_usize(b"18446744073709551615"), Some(usize::MAX));
    assert_eq!(parse_usize(b"18446744073709551616"), None);
    assert_eq!(parse_usize(b"99999999999999999999x"), None);
    for text in ["0", "7", "+9", "", "+", "-3", "x", "00012", "18446744073709551616"] {
        assert_eq!(parse_usize(text.as_bytes()), text.parse::<usize>().ok(), "{text}");
    }
}
