use recorder::capture::{gate_open, CaptureProcessor, ChunkDisposition, VadPolicy, MIN_FINAL_SEGMENT_SAMPLES};
use recorder::vad::{
    scripted_vad, FixedFrameVad, ScriptedFrameVad, VadConfig, VadError, VadFrame, VoiceActivityDetector, SEG_FRAME,
};

/// Detector that cannot judge any frame.
struct FailingVad;

impl VoiceActivityDetector<f32> for FailingVad {
    fn push_frame(&mut self, _frame: &[f32]) -> Result<VadFrame<f32>, VadError> {
        Err(VadError("no decision for this frame".to_string()))
    }

    fn frame_samples(&self) -> usize {
        SEG_FRAME
    }
}

#[test]
fn resampler_frame_size_follows_the_vad_backend() {
    let frame_samples = 256;
    let vad = VadConfig {
        detector: FixedFrameVad(frame_samples),
        frame_samples,
        offline_hangover_frames: 0,
        streaming_hangover_frames: 0,
    };
    let mut processor = CaptureProcessor::new(Some(vad), 0.0f32);

    processor.begin_recording(VadPolicy::Offline, true);
    let out = processor.process_raw_chunk(&[0.0; 1024], ChunkDisposition::Capture);
    let finished = processor.finish_recording();
    let frame_lengths: Vec<usize> = out
        .frames
        .iter()
        .chain(finished.output.frames.iter())
        .map(|frame| frame.len())
        .collect();

    assert_eq!(finished.samples.len(), 1024);
    assert_eq!(frame_lengths, vec![frame_samples; 4]);
}

/// A processor with a segment sink, replaying `script` as detector decisions.
fn processor_with_segments(script: &str) -> CaptureProcessor<f32, ScriptedFrameVad> {
    CaptureProcessor::new(Some(scripted_vad(script)), 0.0f32).with_segment_sink(true)
}

/// Feed `frames` distinct 30 ms frames (value = frame index) and stop;
/// returns the recording and every segment handed out. `gate` is the
/// segment gate (`None`: no gate).
fn record_frames(
    processor: &mut CaptureProcessor<f32, ScriptedFrameVad>,
    frames: usize,
    gate: Option<bool>,
) -> (Vec<f32>, Vec<Vec<f32>>) {
    let mut segments = Vec::new();
    processor.begin_recording(VadPolicy::Offline, gate_open(gate));
    for i in 0..frames {
        let out = processor.process_raw_chunk(&[i as f32; SEG_FRAME], ChunkDisposition::Capture);
        segments.extend(out.segments);
    }
    let finished = processor.finish_recording();
    segments.extend(finished.output.segments);
    (finished.samples, segments)
}

#[test]
fn segment_end_hands_the_accumulated_speech_to_the_segment_callback() {
    // Two utterances separated by a boundary; the trailing 1-frame (30 ms)
    // partial segment is below the final minimum and is not flushed at stop.
    let script = "NSSENSSSENS";
    let mut processor = processor_with_segments(script);
    let (recording, segments) = record_frames(&mut processor, script.len(), None);

    assert_eq!(segments.len(), 2);
    assert_eq!(segments[0], [[1.0f32; SEG_FRAME], [2.0; SEG_FRAME]].concat());
    assert_eq!(
        segments[1],
        [[5.0f32; SEG_FRAME], [6.0; SEG_FRAME], [7.0; SEG_FRAME]].concat()
    );

    // The recording buffer still holds every speech frame, boundaries or not.
    let speech_frames: Vec<f32> = script
        .chars()
        .enumerate()
        .filter(|(_, c)| *c == 'S')
        .flat_map(|(i, _)| [i as f32; SEG_FRAME])
        .collect();
    assert_eq!(recording, speech_frames);
}

#[test]
fn segment_accumulation_never_changes_the_recording_buffer() {
    let script = "SSSENNSSESSSSSSSSSSSSSS";
    let mut with_segments = processor_with_segments(script);
    let mut without_segments = CaptureProcessor::new(Some(scripted_vad(script)), 0.0f32);
    assert_eq!(
        record_frames(&mut with_segments, script.len(), None).0,
        record_frames(&mut without_segments, script.len(), None).0
    );
}

#[test]
fn long_trailing_partial_segment_is_flushed_at_stop() {
    // 12 speech frames = 360 ms >= 350 ms, no boundary.
    let script = "NSSSSSSSSSSSS";
    let mut processor = processor_with_segments(script);
    let (_, segments) = record_frames(&mut processor, script.len(), None);
    assert_eq!(segments.len(), 1);
    assert_eq!(segments[0].len(), 12 * SEG_FRAME);
}

#[test]
fn short_trailing_partial_segment_is_not_flushed_at_stop() {
    // 11 speech frames = 330 ms < 350 ms.
    let script = "NSSSSSSSSSSS";
    let mut processor = processor_with_segments(script);
    let (_, segments) = record_frames(&mut processor, script.len(), None);
    assert!(segments.is_empty());
}

#[test]
fn closed_segment_gate_disables_segments_for_the_recording() {
    let script = "SSSESSSSSSSSSSSSS";
    let mut processor = processor_with_segments(script);
    let (recording, segments) = record_frames(&mut processor, script.len(), Some(false));
    assert!(segments.is_empty());
    assert_eq!(
        recording.len(),
        script.chars().filter(|c| *c == 'S').count() * SEG_FRAME
    );
}

#[test]
fn segments_do_not_leak_across_recordings() {
    // First recording ends mid-segment with a short (un-flushed) tail; the
    // next recording's first segment must not include it.
    let mut processor = processor_with_segments("SSSSSE");
    let mut segments = Vec::new();
    processor.begin_recording(VadPolicy::Offline, true);
    segments.extend(processor.process_raw_chunk(&[9.0; SEG_FRAME], ChunkDisposition::Capture).segments);
    segments.extend(processor.finish_recording().output.segments);

    processor.begin_recording(VadPolicy::Offline, true);
    for _ in 0..5 {
        segments.extend(processor.process_raw_chunk(&[1.0; SEG_FRAME], ChunkDisposition::Capture).segments);
    }
    segments.extend(processor.finish_recording().output.segments);

    assert_eq!(segments.len(), 1);
    assert_eq!(segments[0], vec![1.0; 4 * SEG_FRAME]);
}

#[test]
fn idle_chunks_are_discarded_without_reaching_the_recording() {
    let mut processor = CaptureProcessor::<f32, ScriptedFrameVad>::new(None, 0.0);
    processor.process_raw_chunk(&[1.0; 480], ChunkDisposition::Discard);
    assert!(processor.finish_recording().samples.is_empty());
}

#[test]
fn capture_outside_a_recording_is_ignored() {
    let mut processor = CaptureProcessor::<f32, ScriptedFrameVad>::new(None, 0.0);
    let out = processor.process_raw_chunk(&[1.0; 960], ChunkDisposition::Capture);
    assert!(out.frames.is_empty() && out.verdicts.is_empty() && out.segments.is_empty());
    assert!(processor.finish_recording().samples.is_empty());
}

#[test]
fn discarded_chunks_during_a_recording_are_not_recorded() {
    let mut processor = CaptureProcessor::<f32, ScriptedFrameVad>::new(None, 0.0);
    processor.begin_recording(VadPolicy::Disabled, true);
    processor.process_raw_chunk(&[7.0; 100], ChunkDisposition::Discard);
    processor.process_raw_chunk(&[3.0; 480], ChunkDisposition::Capture);
    assert_eq!(processor.finish_recording().samples, vec![3.0; 480]);
}

#[test]
fn stopping_pads_the_partial_frame_with_silence() {
    let mut processor = CaptureProcessor::<f32, ScriptedFrameVad>::new(None, 0.0);
    processor.begin_recording(VadPolicy::Disabled, true);
    let out = processor.process_raw_chunk(&[0.25, -0.5, 1.0, 99.0], ChunkDisposition::Capture);
    assert!(out.frames.is_empty());
    let finished = processor.finish_recording();
    assert_eq!(finished.samples.len(), 480);
    assert_eq!(&finished.samples[..4], &[0.25, -0.5, 1.0, 99.0]);
    assert!(finished.samples[4..].iter().all(|&s| s == 0.0));
    assert_eq!(finished.output.frames, vec![finished.samples.clone()]);
}

#[test]
fn frames_span_chunk_boundaries_in_order() {
    let vad = VadConfig { detector: FixedFrameVad(4), frame_samples: 4, offline_hangover_frames: 0, streaming_hangover_frames: 0 };
    let mut processor = CaptureProcessor::new(Some(vad), 0.0f32);
    processor.begin_recording(VadPolicy::Offline, true);
    let first = processor.process_raw_chunk(&[1.0, 2.0, 3.0], ChunkDisposition::Capture);
    let second = processor.process_raw_chunk(&[4.0, 5.0, 6.0, 7.0, 8.0, 9.0], ChunkDisposition::Capture);
    assert!(first.frames.is_empty());
    assert_eq!(second.frames, vec![vec![1.0, 2.0, 3.0, 4.0], vec![5.0, 6.0, 7.0, 8.0]]);
    let finished = processor.finish_recording();
    assert_eq!(finished.output.frames, vec![vec![9.0, 0.0, 0.0, 0.0]]);
    assert_eq!(finished.samples, vec![1.0, 2.0, 3.0, 4.0, 5.0, 6.0, 7.0, 8.0, 9.0, 0.0, 0.0, 0.0]);
}

#[test]
fn disabled_policy_keeps_noise_frames() {
    let mut processor = CaptureProcessor::new(Some(scripted_vad("NNN")), 0.0f32);
    processor.begin_recording(VadPolicy::Disabled, true);
    for i in 0..3 {
        processor.process_raw_chunk(&[i as f32; SEG_FRAME], ChunkDisposition::Capture);
    }
    assert_eq!(processor.finish_recording().samples.len(), 3 * SEG_FRAME);
}

#[test]
fn frames_the_detector_cannot_judge_are_kept() {
    let vad = VadConfig { detector: FailingVad, frame_samples: SEG_FRAME, offline_hangover_frames: 0, streaming_hangover_frames: 0 };
    let mut processor = CaptureProcessor::new(Some(vad), 0.0f32);
    processor.begin_recording(VadPolicy::Offline, true);
    processor.process_raw_chunk(&[5.0; SEG_FRAME], ChunkDisposition::Capture);
    assert_eq!(processor.finish_recording().samples, vec![5.0; SEG_FRAME]);
}

#[test]
fn hangover_keeps_noise_frames_after_speech() {
    let mut config = scripted_vad("SNNNSN");
    config.offline_hangover_frames = 2;
    config.streaming_hangover_frames = 1;
    let mut offline = CaptureProcessor::new(Some(config), 0.0f32);
    offline.begin_recording(VadPolicy::Offline, true);
    for i in 0..6 {
        offline.process_raw_chunk(&[i as f32; SEG_FRAME], ChunkDisposition::Capture);
    }
    let kept: Vec<f32> = [0.0f32, 1.0, 2.0, 4.0, 5.0]
        .iter()
        .flat_map(|v| [*v; SEG_FRAME])
        .collect();
    assert_eq!(offline.finish_recording().samples, kept);

    let mut config = scripted_vad("SNNNSN");
    config.offline_hangover_frames = 2;
    config.streaming_hangover_frames = 1;
    let mut streaming = CaptureProcessor::new(Some(config), 0.0f32);
    streaming.begin_recording(VadPolicy::Streaming, true);
    for i in 0..6 {
        streaming.process_raw_chunk(&[i as f32; SEG_FRAME], ChunkDisposition::Capture);
    }
    let kept: Vec<f32> = [0.0f32, 1.0, 4.0, 5.0]
        .iter()
        .flat_map(|v| [*v; SEG_FRAME])
        .collect();
    assert_eq!(streaming.finish_recording().samples, kept);
}

#[test]
fn final_segment_threshold_is_350_ms_at_16_khz() {
    assert_eq!(MIN_FINAL_SEGMENT_SAMPLES, 5600);
}

#[test]
fn segments_partition_the_recorded_speech() {
    let script = "SSENSSSNSSESS";
    let mut processor = processor_with_segments(script);
    let mut segments = Vec::new();
    processor.begin_recording(VadPolicy::Offline, true);
    for i in 0..script.len() {
        segments.extend(processor.process_raw_chunk(&[i as f32; SEG_FRAME], ChunkDisposition::Capture).segments);
    }
    let finished = processor.finish_recording();
    let cut: Vec<f32> = segments.concat();
    // The trailing two frames are too short to be handed out at stop.
    assert_eq!(cut.len() + 2 * SEG_FRAME, finished.samples.len());
    assert_eq!(&finished.samples[..cut.len()], &cut[..]);
}

#[test]
fn a_sink_without_gate_cuts_segments() {
    assert!(gate_open(None));
    assert!(gate_open(Some(true)));
    assert!(!gate_open(Some(false)));
}

#[test]
fn pass_through_detector_keeps_every_frame() {
    let mut vad = FixedFrameVad(3);
    assert_eq!(VoiceActivityDetector::<f32>::frame_samples(&vad), 3);
    match vad.push_frame(&[1.0f32, 2.0, 3.0]) {
        Ok(VadFrame::Speech(kept)) => assert_eq!(kept, vec![1.0, 2.0, 3.0]),
        _ => panic!("the frame must be kept"),
    }
}
