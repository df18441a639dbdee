use recorder::capture::{ChunkDisposition, VadPolicy};
use recorder::consumer::{chunk_disposition, consumer_step, pause_event, ConsumerAction, ConsumerEvent, ConsumerPhase};
use recorder::transport::plan_callback;

#[test]
fn start_stop_with_acknowledged_pause_returns_to_idle() {
    let (phase, action) = consumer_step(ConsumerPhase::Idle, ConsumerEvent::Start(VadPolicy::Disabled));
    assert!(matches!(phase, ConsumerPhase::Recording));
    assert!(matches!(action, ConsumerAction::BeginRecording(VadPolicy::Disabled)));
    let (phase, action) = consumer_step(phase, ConsumerEvent::Stop);
    assert!(matches!(phase, ConsumerPhase::Stopping));
    assert!(matches!(action, ConsumerAction::RequestPause));
    assert!(matches!(chunk_disposition(phase), ChunkDisposition::Capture));
    let (phase, action) = consumer_step(phase, ConsumerEvent::PauseAcknowledged);
    assert!(matches!(phase, ConsumerPhase::Idle));
    assert!(matches!(action, ConsumerAction::FinishRecording { stream_failed: false, drain_rest: true }));
    assert!(matches!(chunk_disposition(phase), ChunkDisposition::Discard));
}

#[test]
fn missing_acknowledgement_marks_the_stream_failed_and_exits() {
    let (phase, _) = consumer_step(ConsumerPhase::Recording, ConsumerEvent::Stop);
    let (phase, action) = consumer_step(phase, ConsumerEvent::PauseTimedOut);
    assert!(matches!(phase, ConsumerPhase::Exited));
    assert!(matches!(action, ConsumerAction::FinishRecording { stream_failed: true, drain_rest: true }));
}

#[test]
fn shutdown_exits_without_audio() {
    for phase in [ConsumerPhase::Idle, ConsumerPhase::Recording, ConsumerPhase::Stopping] {
        let (next, action) = consumer_step(phase, ConsumerEvent::Shutdown);
        assert!(matches!(next, ConsumerPhase::Exited));
        assert!(matches!(action, ConsumerAction::Exit));
    }
    let (next, action) = consumer_step(ConsumerPhase::Exited, ConsumerEvent::Start(VadPolicy::Offline));
    assert!(matches!(next, ConsumerPhase::Exited));
    assert!(matches!(action, ConsumerAction::Ignore));
}

#[test]
fn stop_without_recording_is_answered_at_once() {
    let (phase, action) = consumer_step(ConsumerPhase::Idle, ConsumerEvent::Stop);
    assert!(matches!(phase, ConsumerPhase::Idle));
    assert!(matches!(action, ConsumerAction::FinishRecording { stream_failed: false, drain_rest: false }));
}

#[test]
fn acknowledgement_wins_over_the_deadline() {
    assert!(matches!(pause_event(true, true), Some(ConsumerEvent::PauseAcknowledged)));
    assert!(matches!(pause_event(true, false), Some(ConsumerEvent::PauseAcknowledged)));
    assert!(matches!(pause_event(false, true), Some(ConsumerEvent::PauseTimedOut)));
    assert!(pause_event(false, false).is_none());
}


/// The callback and consumer decisions driven over a plain queue, as the
/// session model does.
struct Sim {
    phase: ConsumerPhase,
    requested: bool,
    acknowledged: bool,
    ring: Vec<f32>,
    recording: Vec<f32>,
    replies: Vec<Vec<f32>>,
}

impl Sim {
    fn block(&mut self, block: &[f32]) {
        let plan = plan_callback(self.requested, self.acknowledged, block.len(), usize::MAX);
        if plan.forward {
            self.ring.extend_from_slice(&block[..plan.write.written]);
        }
        if plan.acknowledge {
            self.acknowledged = true;
        }
    }

    fn drain(&mut self) {
        let taken: Vec<f32> = self.ring.drain(..).collect();
        if matches!(chunk_disposition(self.phase), ChunkDisposition::Capture) {
            self.recording.extend(taken);
        }
    }

    fn event(&mut self, event: ConsumerEvent) {
        let (next, action) = consumer_step(self.phase, event);
        match action {
            ConsumerAction::BeginRecording(_) => self.recording.clear(),
            ConsumerAction::RequestPause => self.requested = true,
            ConsumerAction::FinishRecording { drain_rest, .. } => {
                if drain_rest {
                    self.drain();
                }
                self.replies.push(std::mem::take(&mut self.recording));
                self.requested = false;
                self.acknowledged = false;
            }
            _ => {}
        }
        self.phase = next;
    }

    fn poll(&mut self) {
        if let Some(event) = pause_event(self.acknowledged, false) {
            self.event(event);
        }
    }
}


#[test]
fn back_to_back_cycles_answer_with_their_own_audio() {
    let mut sim = Sim {
        phase: ConsumerPhase::Idle,
        requested: false,
        acknowledged: false,
        ring: Vec::new(),
        recording: Vec::new(),
        replies: Vec::new(),
    };
    for (input, boundary) in [([0.25f32, -0.5, 1.0], 99.0f32), ([0.75, -0.25, 0.5], 199.0)] {
        sim.event(ConsumerEvent::Start(VadPolicy::Disabled));
        sim.block(&input);
        sim.drain();
        sim.event(ConsumerEvent::Stop);
        sim.block(&[boundary]);
        sim.block(&[7.0]);
        sim.poll();
    }
    assert_eq!(sim.replies, vec![vec![0.25, -0.5, 1.0, 99.0], vec![0.75, -0.25, 0.5, 199.0]]);
    assert!(matches!(sim.phase, ConsumerPhase::Idle));
    assert!(sim.ring.is_empty() && !sim.requested && !sim.acknowledged);
}
