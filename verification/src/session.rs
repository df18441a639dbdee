//! A sequential model of a capture session: the audio callback, the ring
//! between it and the consumer, and the consumer's protocol, each acting in
//! turn. The decisions are those of `transport` and `consumer`; the model
//! states what a recording's reply holds across the pause handshake. The ring
//! is taken to have room for every forwarded block (overruns are accounted
//! for by `transport::plan_callback`).

use vstd::prelude::*;
use crate::capture::VadPolicy;
use crate::consumer::{spec_chunk_disposition, spec_consumer_step, spec_pause_event, ConsumerAction, ConsumerEvent, ConsumerPhase};
use crate::transport::{spec_callback_action, CallbackAction, PauseFlags};

verus! {

/// The state shared by the callback and the consumer, and what the consumer
/// has answered so far.
pub struct Session<S> {
    pub phase: ConsumerPhase,
    pub flags: PauseFlags,
    /// Samples forwarded by the callback and not yet drained.
    pub ring: Seq<S>,
    /// Samples drained into the recording in progress.
    pub recording: Seq<S>,
    /// The replies to stop commands, in order.
    pub replies: Seq<Seq<S>>,
    /// Whether the stream was marked for rebuilding.
    pub stream_failed: bool,
}

/// One thing that happens in a session.
pub enum SessionEvent<S> {
    /// The callback delivers a mono block.
    Block(Seq<S>),
    /// The consumer drains the ring.
    Drain,
    /// A start command.
    Start(VadPolicy),
    /// A stop command.
    Stop,
    /// A shutdown command.
    Shutdown,
    /// A stopping consumer looks at the pause flag; `true` when its deadline
    /// has passed.
    Poll(bool),
}

pub open spec fn clear_flags() -> PauseFlags {
    PauseFlags { requested: false, acknowledged: false }
}

/// The session after the consumer carried out `action` and moved to `next`.
pub open spec fn perform<S>(s: Session<S>, next: ConsumerPhase, action: ConsumerAction) -> Session<S> {
    match action {
        ConsumerAction::BeginRecording(_) => Session {
            phase: next,
            flags: s.flags,
            ring: s.ring,
            recording: Seq::empty(),
            replies: s.replies,
            stream_failed: s.stream_failed,
        },
        ConsumerAction::RequestPause => Session {
            phase: next,
            flags: PauseFlags { requested: true, acknowledged: s.flags.acknowledged },
            ring: s.ring,
            recording: s.recording,
            replies: s.replies,
            stream_failed: s.stream_failed,
        },
        ConsumerAction::FinishRecording { stream_failed, drain_rest } => Session {
            phase: next,
            flags: clear_flags(),
            ring: if drain_rest { Seq::empty() } else { s.ring },
            recording: Seq::empty(),
            replies: s.replies.push(if drain_rest { s.recording + s.ring } else { s.recording }),
            stream_failed: s.stream_failed || stream_failed,
        },
        _ => Session {
            phase: next,
            flags: s.flags,
            ring: s.ring,
            recording: s.recording,
            replies: s.replies,
            stream_failed: s.stream_failed,
        },
    }
}

/// The session after the consumer handled `event`.
pub open spec fn consume<S>(s: Session<S>, event: ConsumerEvent) -> Session<S> {
    let (next, action) = spec_consumer_step(s.phase, event);
    perform(s, next, action)
}

/// The session after one event.
pub open spec fn session_step<S>(s: Session<S>, e: SessionEvent<S>) -> Session<S> {
    match e {
        SessionEvent::Block(b) => match spec_callback_action(s.flags.requested, s.flags.acknowledged) {
            CallbackAction::Drop => s,
            CallbackAction::Forward => Session {
                phase: s.phase,
                flags: s.flags,
                ring: s.ring + b,
                recording: s.recording,
                replies: s.replies,
                stream_failed: s.stream_failed,
            },
            CallbackAction::ForwardAndAcknowledge => Session {
                phase: s.phase,
                flags: PauseFlags { requested: s.flags.requested, acknowledged: true },
                ring: s.ring + b,
                recording: s.recording,
                replies: s.replies,
                stream_failed: s.stream_failed,
            },
        },
        SessionEvent::Drain => Session {
            phase: s.phase,
            flags: s.flags,
            ring: Seq::empty(),
            recording: if spec_chunk_disposition(s.phase) is Capture { s.recording + s.ring } else { s.recording },
            replies: s.replies,
            stream_failed: s.stream_failed,
        },
        SessionEvent::Start(policy) => consume(s, ConsumerEvent::Start(policy)),
        SessionEvent::Stop => consume(s, ConsumerEvent::Stop),
        SessionEvent::Shutdown => consume(s, ConsumerEvent::Shutdown),
        SessionEvent::Poll(late) => if s.phase is Stopping {
            match spec_pause_event(s.flags.acknowledged, late) {
                Some(event) => consume(s, event),
                None => s,
            }
        } else {
            s
        },
    }
}

/// The session after a run of events, in order.
pub open spec fn session_run<S>(s: Session<S>, events: Seq<SessionEvent<S>>) -> Session<S>
    decreases events.len(),
{
    if events.len() == 0 {
        s
    } else {
        session_step(session_run(s, events.drop_last()), events.last())
    }
}

/// Only the callback and the drain act.
pub open spec fn only_audio<S>(events: Seq<SessionEvent<S>>) -> bool {
    forall|i: int| 0 <= i < events.len() ==> (#[trigger] events[i] is Block || events[i] is Drain)
}

/// Only the drain acts.
pub open spec fn only_drains<S>(events: Seq<SessionEvent<S>>) -> bool {
    forall|i: int| 0 <= i < events.len() ==> #[trigger] events[i] is Drain
}

/// The blocks that the callback delivers in a run of events, in order.
pub open spec fn blocks_of<S>(events: Seq<SessionEvent<S>>) -> Seq<S>
    decreases events.len(),
{
    if events.len() == 0 {
        Seq::empty()
    } else {
        blocks_of(events.drop_last()) + match events.last() {
            SessionEvent::Block(b) => b,
            _ => Seq::empty(),
        }
    }
}

proof fn lemma_session_run_append<S>(s: Session<S>, a: Seq<SessionEvent<S>>, b: Seq<SessionEvent<S>>)
    ensures
        session_run(s, a + b) == session_run(session_run(s, a), b),
    decreases b.len(),
{
    if b.len() == 0 {
        assert(a + b =~= a);
    } else {
        lemma_session_run_append(s, a, b.drop_last());
        assert((a + b).drop_last() =~= a + b.drop_last());
        assert((a + b).last() == b.last());
    }
}

proof fn lemma_session_run_one<S>(s: Session<S>, e: SessionEvent<S>)
    ensures
        session_run(s, seq![e]) == session_step(s, e),
{
    assert(seq![e].drop_last() =~= Seq::<SessionEvent<S>>::empty());
    assert(session_run(s, Seq::<SessionEvent<S>>::empty()) == s);
    assert(seq![e].last() == e);
}

/// While a recording runs and no pause is requested, every block reaches the
/// ring and every drain moves the ring into the recording.
proof fn lemma_running_capture<S>(s: Session<S>, events: Seq<SessionEvent<S>>)
    requires
        s.phase is Recording,
        s.flags == clear_flags(),
        only_audio(events),
    ensures
        ({
            let r = session_run(s, events);
            &&& r.phase is Recording
            &&& r.flags == clear_flags()
            &&& r.recording + r.ring == s.recording + s.ring + blocks_of(events)
            &&& r.replies == s.replies
            &&& r.stream_failed == s.stream_failed
        }),
    decreases events.len(),
{
    if events.len() == 0 {
        assert(s.recording + s.ring + blocks_of(events) =~= s.recording + s.ring);
    } else {
        let front = events.drop_last();
        assert(only_audio(front)) by {
            assert forall|i: int| 0 <= i < front.len() implies (#[trigger] front[i] is Block || front[i] is Drain) by {
                assert(front[i] == events[i]);
            }
        }
        lemma_running_capture(s, front);
        let r0 = session_run(s, front);
        let e = events.last();
        assert(events[events.len() - 1] == e);
        match e {
            SessionEvent::Block(b) => {
                assert(session_run(s, events).recording + session_run(s, events).ring =~= (r0.recording + r0.ring) + b);
                assert(s.recording + s.ring + blocks_of(events) =~= (s.recording + s.ring + blocks_of(front)) + b);
            },
            _ => {
                assert(session_run(s, events).recording + session_run(s, events).ring =~= r0.recording + r0.ring);
                assert(s.recording + s.ring + blocks_of(events) =~= s.recording + s.ring + blocks_of(front));
            },
        }
    }
}

/// Once the pause is acknowledged, blocks are dropped and drains only move
/// the ring into the recording: nothing is added to what the stop will
/// return.
proof fn lemma_paused_capture<S>(s: Session<S>, events: Seq<SessionEvent<S>>)
    requires
        s.phase is Stopping,
        s.flags == (PauseFlags { requested: true, acknowledged: true }),
        only_audio(events),
    ensures
        ({
            let r = session_run(s, events);
            &&& r.phase is Stopping
            &&& r.flags == s.flags
            &&& r.recording + r.ring == s.recording + s.ring
            &&& r.replies == s.replies
            &&& r.stream_failed == s.stream_failed
        }),
    decreases events.len(),
{
    if events.len() > 0 {
        let front = events.drop_last();
        assert(only_audio(front)) by {
            assert forall|i: int| 0 <= i < front.len() implies (#[trigger] front[i] is Block || front[i] is Drain) by {
                assert(front[i] == events[i]);
            }
        }
        lemma_paused_capture(s, front);
        let r0 = session_run(s, front);
        assert(events[events.len() - 1] == events.last());
        assert(session_run(s, events).recording + session_run(s, events).ring =~= r0.recording + r0.ring);
    }
}

/// While the pause waits for an acknowledgement that does not come, drains
/// only move the ring into the recording.
proof fn lemma_waiting_for_pause<S>(s: Session<S>, events: Seq<SessionEvent<S>>)
    requires
        s.phase is Stopping,
        only_drains(events),
    ensures
        ({
            let r = session_run(s, events);
            &&& r.phase is Stopping
            &&& r.flags == s.flags
            &&& r.recording + r.ring == s.recording + s.ring
            &&& r.replies == s.replies
            &&& r.stream_failed == s.stream_failed
        }),
    decreases events.len(),
{
    if events.len() > 0 {
        let front = events.drop_last();
        assert(only_drains(front)) by {
            assert forall|i: int| 0 <= i < front.len() implies #[trigger] front[i] is Drain by {
                assert(front[i] == events[i]);
            }
        }
        lemma_waiting_for_pause(s, front);
        let r0 = session_run(s, front);
        assert(events[events.len() - 1] == events.last());
        assert(session_run(s, events).recording + session_run(s, events).ring =~= r0.recording + r0.ring);
    }
}

/// The events of one recording whose stop is acknowledged: a start, the
/// audio `before` the stop, the stop, the block the callback holds when it
/// first sees the pause, the audio `after` it, and the poll that finds the
/// acknowledgement.
pub open spec fn acknowledged_cycle<S>(
    policy: VadPolicy,
    before: Seq<SessionEvent<S>>,
    boundary: Seq<S>,
    after: Seq<SessionEvent<S>>,
) -> Seq<SessionEvent<S>> {
    seq![SessionEvent::Start(policy)] + before + seq![SessionEvent::Stop, SessionEvent::Block(boundary)] + after
        + seq![SessionEvent::Poll(false)]
}

/// A stop is answered with exactly the audio of its recording: every block
/// delivered between the start and the stop, then the block in hand when the
/// callback first saw the pause; blocks after that are dropped. The stop
/// leaves the ring empty, the pause flags clear and the consumer idle, so
/// the next recording starts from nothing.
pub proof fn lemma_stop_answers_exactly_the_recorded_audio<S>(
    s0: Session<S>,
    policy: VadPolicy,
    before: Seq<SessionEvent<S>>,
    boundary: Seq<S>,
    after: Seq<SessionEvent<S>>,
)
    requires
        s0.phase is Idle,
        s0.flags == clear_flags(),
        s0.ring.len() == 0,
        only_audio(before),
        only_audio(after),
    ensures
        ({
            let s = session_run(s0, acknowledged_cycle(policy, before, boundary, after));
            &&& s.replies == s0.replies.push(blocks_of(before) + boundary)
            &&& s.phase is Idle
            &&& s.flags == clear_flags()
            &&& s.ring.len() == 0
            &&& s.recording.len() == 0
            &&& s.stream_failed == s0.stream_failed
        }),
{
    let start = seq![SessionEvent::<S>::Start(policy)];
    let stop = seq![SessionEvent::Stop, SessionEvent::Block(boundary)];
    let poll = seq![SessionEvent::<S>::Poll(false)];
    let s1 = session_run(s0, start);
    lemma_session_run_one(s0, SessionEvent::Start(policy));
    assert(s1.recording =~= Seq::<S>::empty());
    lemma_running_capture(s1, before);
    let s2 = session_run(s1, before);
    assert(s2.recording + s2.ring =~= blocks_of(before)) by {
        assert(s1.recording + s1.ring =~= Seq::<S>::empty());
        assert(s1.recording + s1.ring + blocks_of(before) =~= blocks_of(before));
    }
    let s3 = session_run(s2, stop);
    let s3a = session_step(s2, SessionEvent::Stop);
    lemma_session_run_one(s2, SessionEvent::Stop);
    lemma_session_run_one(s3a, SessionEvent::Block(boundary));
    lemma_session_run_append(s2, seq![SessionEvent::<S>::Stop], seq![SessionEvent::Block(boundary)]);
    assert(seq![SessionEvent::<S>::Stop] + seq![SessionEvent::Block(boundary)] =~= stop);
    assert(s3 == session_step(s3a, SessionEvent::Block(boundary)));
    assert(s3.recording + s3.ring =~= blocks_of(before) + boundary);
    lemma_paused_capture(s3, after);
    let s4 = session_run(s3, after);
    let s5 = session_run(s4, poll);
    lemma_session_run_one(s4, SessionEvent::Poll(false));
    lemma_session_run_append(s0, start, before);
    lemma_session_run_append(s0, start + before, stop);
    lemma_session_run_append(s0, start + before + stop, after);
    lemma_session_run_append(s0, start + before + stop + after, poll);
    assert(acknowledged_cycle(policy, before, boundary, after) =~= start + before + stop + after + poll);
    assert(s5.ring =~= Seq::<S>::empty());
}

/// Where the callback never acknowledges the pause, the stop is still
/// answered once the deadline passes, with the audio delivered before the
/// stop; the stream is marked for rebuilding and the consumer ends.
pub proof fn lemma_missing_callback_still_answers_the_stop<S>(
    s0: Session<S>,
    policy: VadPolicy,
    before: Seq<SessionEvent<S>>,
    waiting: Seq<SessionEvent<S>>,
)
    requires
        s0.phase is Idle,
        s0.flags == clear_flags(),
        s0.ring.len() == 0,
        only_audio(before),
        only_drains(waiting),
    ensures
        ({
            let events = seq![SessionEvent::Start(policy)] + before + seq![SessionEvent::Stop] + waiting + seq![
                SessionEvent::Poll(true),
            ];
            let s = session_run(s0, events);
            &&& s.replies == s0.replies.push(blocks_of(before))
            &&& s.stream_failed
            &&& s.phase is Exited
            &&& s.flags == clear_flags()
        }),
{
    let start = seq![SessionEvent::<S>::Start(policy)];
    let stop = seq![SessionEvent::<S>::Stop];
    let poll = seq![SessionEvent::<S>::Poll(true)];
    let s1 = session_run(s0, start);
    lemma_session_run_one(s0, SessionEvent::Start(policy));
    lemma_running_capture(s1, before);
    let s2 = session_run(s1, before);
    assert(s2.recording + s2.ring =~= blocks_of(before)) by {
        assert(s1.recording + s1.ring + blocks_of(before) =~= blocks_of(before));
    }
    let s3 = session_run(s2, stop);
    lemma_session_run_one(s2, SessionEvent::Stop);
    lemma_waiting_for_pause(s3, waiting);
    let s4 = session_run(s3, waiting);
    let s5 = session_run(s4, poll);
    lemma_session_run_one(s4, SessionEvent::Poll(true));
    lemma_session_run_append(s0, start, before);
    lemma_session_run_append(s0, start + before, stop);
    lemma_session_run_append(s0, start + before + stop, waiting);
    lemma_session_run_append(s0, start + before + stop + waiting, poll);
}

/// Back-to-back recordings do not leak into each other: two acknowledged
/// cycles in a row answer their stops with their own audio each.
pub proof fn lemma_cycles_do_not_leak<S>(
    s0: Session<S>,
    first: (VadPolicy, Seq<SessionEvent<S>>, Seq<S>, Seq<SessionEvent<S>>),
    second: (VadPolicy, Seq<SessionEvent<S>>, Seq<S>, Seq<SessionEvent<S>>),
)
    requires
        s0.phase is Idle,
        s0.flags == clear_flags(),
        s0.ring.len() == 0,
        only_audio(first.1),
        only_audio(first.3),
        only_audio(second.1),
        only_audio(second.3),
    ensures
        session_run(
            s0,
            acknowledged_cycle(first.0, first.1, first.2, first.3) + acknowledged_cycle(second.0, second.1, second.2, second.3),
        ).replies == s0.replies.push(blocks_of(first.1) + first.2).push(blocks_of(second.1) + second.2),
{
    let c1 = acknowledged_cycle(first.0, first.1, first.2, first.3);
    let c2 = acknowledged_cycle(second.0, second.1, second.2, second.3);
    lemma_stop_answers_exactly_the_recorded_audio(s0, first.0, first.1, first.2, first.3);
    let s1 = session_run(s0, c1);
    lemma_stop_answers_exactly_the_recorded_audio(s1, second.0, second.1, second.2, second.3);
    lemma_session_run_append(s0, c1, c2);
}

} // verus!
