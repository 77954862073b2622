# voiceguard

Verified control logic of VoiceGuard, a low-latency microphone cleanup
plugin (48 kHz, DPDFNet8 enhancement with a short event lookahead, 2880
samples of reported latency).

- `src/` — the library, verified with Verus. Sample values are a type
  parameter, so everything here is integer, sequence and state-machine
  logic: hop framing (`framing`), the lookahead queue that pairs frames with
  the enhancer's answers (`pending`, `channel`), the event hold
  (`event_hold`), the speech-keyed hangover logic of the spectral engine
  (`gate`), FFT geometry and bin bands (`spectrum`), model state and output
  shape checks (`model_state`, `vad`), metadata list splitting
  and decimal sizes (`metadata`), the non-blocking hand-off to worker
  threads over crossbeam channels (`worker`), and the channel's delay
  (`latency`). A channel's output starts with five hops of silence and each
  frame is queued with the hop before it as its dry samples (the worker's
  overlap-add in `app/` answers a hop with the enhancement of the hop
  before it, which is not proved here); with a worker that refuses
  every hop the channel delays its input by exactly the reported 2880
  samples; when every frame is answered before the lookahead releases it,
  frame `k`'s answer comes out at calls `480k + 2400` to `480k + 2879`;
  and nothing but silence comes out during the first 2400 calls whatever
  the worker does. The workers record, as ghost state, the frames they
  have taken, so the contracts say which hop is offered to the enhancer.
- `tests/` — tests of the library on concrete values.
- `app/` — the floating point DSP, ONNX Runtime inference, realfft
  transforms and worker threads, calling into the library between steps.
