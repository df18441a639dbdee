//! The command protocol of the consumer thread, as a state machine. The
//! thread that runs it receives the commands, watches the pause handshake and
//! carries out the actions; the decisions are made here.

use vstd::prelude::*;
use crate::capture::{ChunkDisposition, VadPolicy};

verus! {

/// Where the consumer stands.
#[derive(Clone, Copy, Debug)]
pub enum ConsumerPhase {
    /// No recording runs; captured audio is discarded.
    Idle,
    /// A recording runs; captured audio is recorded.
    Recording,
    /// A stop was requested; capture is being paused so that the audio
    /// captured before the stop can still be drained into the recording.
    Stopping,
    /// The consumer has ended.
    Exited,
}

/// What happened to the consumer.
#[derive(Clone, Copy, Debug)]
pub enum ConsumerEvent {
    /// A start command with the detector policy for the new recording.
    Start(VadPolicy),
    /// A stop command.
    Stop,
    /// A shutdown command.
    Shutdown,
    /// The command channel was closed.
    CommandsClosed,
    /// The callback acknowledged the pause.
    PauseAcknowledged,
    /// The callback did not acknowledge the pause in time.
    PauseTimedOut,
}

/// What the consumer is to do.
#[derive(Clone, Copy, Debug)]
pub enum ConsumerAction {
    /// Begin a new recording with this policy, discarding any recording in
    /// progress, and report that capture is ready.
    BeginRecording(VadPolicy),
    /// Ask the callback to pause and wait for its acknowledgement.
    RequestPause,
    /// Finish the recording, clear the pause flags and reply with the
    /// recorded audio. Where `drain_rest`, first drain everything the ring
    /// still holds into the recording (capture was paused, so that audio
    /// precedes the stop). Where `stream_failed`, also mark the stream as
    /// needing to be rebuilt.
    FinishRecording { stream_failed: bool, drain_rest: bool },
    /// End the consumer.
    Exit,
    /// Nothing to do.
    Ignore,
}

pub open spec fn spec_consumer_step(phase: ConsumerPhase, event: ConsumerEvent) -> (ConsumerPhase, ConsumerAction) {
    match phase {
        ConsumerPhase::Exited => (ConsumerPhase::Exited, ConsumerAction::Ignore),
        _ => match event {
            ConsumerEvent::Shutdown => (ConsumerPhase::Exited, ConsumerAction::Exit),
            ConsumerEvent::CommandsClosed => (ConsumerPhase::Exited, ConsumerAction::Exit),
            ConsumerEvent::Start(policy) => match phase {
                ConsumerPhase::Stopping => (phase, ConsumerAction::Ignore),
                _ => (ConsumerPhase::Recording, ConsumerAction::BeginRecording(policy)),
            },
            ConsumerEvent::Stop => match phase {
                ConsumerPhase::Idle => (ConsumerPhase::Idle, ConsumerAction::FinishRecording { stream_failed: false, drain_rest: false }),
                ConsumerPhase::Recording => (ConsumerPhase::Stopping, ConsumerAction::RequestPause),
                _ => (phase, ConsumerAction::Ignore),
            },
            ConsumerEvent::PauseAcknowledged => match phase {
                ConsumerPhase::Stopping => (ConsumerPhase::Idle, ConsumerAction::FinishRecording { stream_failed: false, drain_rest: true }),
                _ => (phase, ConsumerAction::Ignore),
            },
            ConsumerEvent::PauseTimedOut => match phase {
                ConsumerPhase::Stopping => (ConsumerPhase::Exited, ConsumerAction::FinishRecording { stream_failed: true, drain_rest: true }),
                _ => (phase, ConsumerAction::Ignore),
            },
        },
    }
}

/// The next phase and the action for `event` in `phase`.
pub fn consumer_step(phase: ConsumerPhase, event: ConsumerEvent) -> (r: (ConsumerPhase, ConsumerAction))
    ensures
        r == spec_consumer_step(phase, event),
{
    match phase {
        ConsumerPhase::Exited => (ConsumerPhase::Exited, ConsumerAction::Ignore),
        _ => match event {
            ConsumerEvent::Shutdown => (ConsumerPhase::Exited, ConsumerAction::Exit),
            ConsumerEvent::CommandsClosed => (ConsumerPhase::Exited, ConsumerAction::Exit),
            ConsumerEvent::Start(policy) => match phase {
                ConsumerPhase::Stopping => (phase, ConsumerAction::Ignore),
                _ => (ConsumerPhase::Recording, ConsumerAction::BeginRecording(policy)),
            },
            ConsumerEvent::Stop => match phase {
                ConsumerPhase::Idle => (ConsumerPhase::Idle, ConsumerAction::FinishRecording { stream_failed: false, drain_rest: false }),
                ConsumerPhase::Recording => (ConsumerPhase::Stopping, ConsumerAction::RequestPause),
                _ => (phase, ConsumerAction::Ignore),
            },
            ConsumerEvent::PauseAcknowledged => match phase {
                ConsumerPhase::Stopping => (ConsumerPhase::Idle, ConsumerAction::FinishRecording { stream_failed: false, drain_rest: true }),
                _ => (phase, ConsumerAction::Ignore),
            },
            ConsumerEvent::PauseTimedOut => match phase {
                ConsumerPhase::Stopping => (ConsumerPhase::Exited, ConsumerAction::FinishRecording { stream_failed: true, drain_rest: true }),
                _ => (phase, ConsumerAction::Ignore),
            },
        },
    }
}

pub open spec fn spec_chunk_disposition(phase: ConsumerPhase) -> ChunkDisposition {
    match phase {
        ConsumerPhase::Recording | ConsumerPhase::Stopping => ChunkDisposition::Capture,
        _ => ChunkDisposition::Discard,
    }
}

/// What becomes of audio drained from the ring in `phase`: it is recorded
/// while a recording runs or is being stopped, and discarded otherwise.
pub fn chunk_disposition(phase: ConsumerPhase) -> (r: ChunkDisposition)
    ensures
        r == spec_chunk_disposition(phase),
{
    match phase {
        ConsumerPhase::Recording | ConsumerPhase::Stopping => ChunkDisposition::Capture,
        _ => ChunkDisposition::Discard,
    }
}

pub open spec fn spec_pause_event(acknowledged: bool, deadline_passed: bool) -> Option<ConsumerEvent> {
    if acknowledged {
        Some(ConsumerEvent::PauseAcknowledged)
    } else if deadline_passed {
        Some(ConsumerEvent::PauseTimedOut)
    } else {
        None
    }
}

/// What a stopping consumer learns from the pause flag and the clock: an
/// acknowledgement wins even when it comes at the deadline; without one, the
/// pause times out once the deadline has passed; otherwise it keeps waiting.
pub fn pause_event(acknowledged: bool, deadline_passed: bool) -> (r: Option<ConsumerEvent>)
    ensures
        r == spec_pause_event(acknowledged, deadline_passed),
{
    if acknowledged {
        Some(ConsumerEvent::PauseAcknowledged)
    } else if deadline_passed {
        Some(ConsumerEvent::PauseTimedOut)
    } else {
        None
    }
}

/// Every stop is answered with a reply: at once where no recording runs, and
/// otherwise after the pause, whether the callback acknowledges it or not,
/// with the audio still in the ring drained into the recording first. A
/// pause that is not acknowledged marks the stream as failed and ends the
/// consumer; an acknowledged one leaves it idle, ready for the next start.
pub proof fn lemma_every_stop_is_answered(phase: ConsumerPhase)
    requires
        phase is Idle || phase is Recording,
    ensures
        phase is Idle ==> spec_consumer_step(phase, ConsumerEvent::Stop) == (
        ConsumerPhase::Idle,
        ConsumerAction::FinishRecording { stream_failed: false, drain_rest: false },
        ),
        phase is Recording ==> {
            &&& spec_consumer_step(phase, ConsumerEvent::Stop) == (ConsumerPhase::Stopping, ConsumerAction::RequestPause)
            &&& spec_consumer_step(ConsumerPhase::Stopping, ConsumerEvent::PauseAcknowledged) == (
            ConsumerPhase::Idle,
            ConsumerAction::FinishRecording { stream_failed: false, drain_rest: true },
            )
            &&& spec_consumer_step(ConsumerPhase::Stopping, ConsumerEvent::PauseTimedOut) == (
            ConsumerPhase::Exited,
            ConsumerAction::FinishRecording { stream_failed: true, drain_rest: true },
            )
        },
{
}

/// A shutdown, or the loss of the command channel, ends the consumer from any
/// live phase, and an ended consumer stays ended whatever happens.
pub proof fn lemma_shutdown_ends_the_consumer(phase: ConsumerPhase, event: ConsumerEvent)
    ensures
        !(phase is Exited) && (event is Shutdown || event is CommandsClosed) ==> spec_consumer_step(phase, event) == (
        ConsumerPhase::Exited,
        ConsumerAction::Exit,
        ),
        phase is Exited ==> spec_consumer_step(phase, event) == (ConsumerPhase::Exited, ConsumerAction::Ignore),
{
}

/// Audio is recorded exactly from the start of a recording until its stop is
/// answered: a start makes the consumer record, a stop keeps it recording
/// while capture is paused, and the answer to the stop ends recording.
pub proof fn lemma_recording_window(policy: VadPolicy)
    ensures
        spec_chunk_disposition(spec_consumer_step(ConsumerPhase::Idle, ConsumerEvent::Start(policy)).0) is Capture,
        spec_chunk_disposition(spec_consumer_step(ConsumerPhase::Recording, ConsumerEvent::Stop).0) is Capture,
        spec_chunk_disposition(spec_consumer_step(ConsumerPhase::Stopping, ConsumerEvent::PauseAcknowledged).0) is Discard,
        spec_chunk_disposition(spec_consumer_step(ConsumerPhase::Stopping, ConsumerEvent::PauseTimedOut).0) is Discard,
        spec_chunk_disposition(ConsumerPhase::Idle) is Discard,
{
}


/// A start command that begins a recording begins it with the policy it
/// carries, from an idle consumer as from a recording one.
pub proof fn lemma_start_keeps_its_policy(phase: ConsumerPhase, policy: VadPolicy)
    requires
        phase is Idle || phase is Recording,
    ensures
        spec_consumer_step(phase, ConsumerEvent::Start(policy)).0 is Recording,
        spec_consumer_step(phase, ConsumerEvent::Start(policy)).1 matches ConsumerAction::BeginRecording(p) && p == policy,
{
}

} // verus!
