# recorder

The verified core of a microphone capture pipeline, written in Verus.

- `src/errors.rs`: classification of device error messages (access refused,
  no input device), specified as case-insensitive occurrence of fixed phrases.
- `src/vad.rs`: the voice-activity detector interface, its configuration, a
  detector that replays a script of decisions, and a pass-through detector.
- `src/capture.rs`: the capture processor. Audio is cut into detector-sized
  frames, each frame is judged, kept audio goes into the recording, and kept
  speech is cut into segments at the detector's boundaries. Its contracts are
  stated over a model (`step`, `run`, `run_emits`), and the proof functions at
  the end of the file state the laws of recording and segmentation.
- `src/transport.rs`: the audio callback's decisions (pause handshake, channel
  reduction, partial ring writes).
- `src/consumer.rs`: the consumer thread's command protocol as a state machine.
- `src/session.rs`: a sequential model of the callback, the ring and the
  consumer together, with the laws on what a stop returns across the pause
  handshake and across consecutive recordings.

`app/lib.rs` is the running shell: the lock-free ring (`rtrb`), the
consumer thread, channel averaging on `f32` samples, and the recorder handle.
Captured audio reaches the processor at the device's rate; `rubato` converts
it to the 16 kHz working rate in fixed blocks of 1024 input samples, and the
verified core then cuts the converted stream into frames of the detector's
length. No audio device back end is wired in: the
shell is driven through `AudioRecorder::write_input_to_ring`, which a device
callback calls with each captured block. The library is generic over the sample type, so the
shell and the tests instantiate it with `f32`.
