//! The capture processor: it cuts the captured stream into detector-sized
//! frames, asks the detector about each frame, keeps the recording, and cuts
//! the recorded speech into segments at the detector's segment boundaries.

use vstd::prelude::*;
use crate::vad::{
    append_all, char_at, copy_of, lemma_scripted_step, scripted_after, scripted_verdict, ScriptedFrameVad, VadConfig,
    VadFrame, Verdict, VoiceActivityDetector,
};

verus! {

/// Frame length used when no detector is attached: 30 ms at the 16 kHz working rate.
pub const DEFAULT_FRAME_SAMPLES: usize = 480;

/// A trailing segment shorter than this (350 ms at 16 kHz) is not handed out
/// when a recording stops.
pub const MIN_FINAL_SEGMENT_SAMPLES: usize = 5600;

/// How a recording uses the detector.
#[derive(Clone, Copy, Debug)]
pub enum VadPolicy {
    /// Every frame is kept; the detector is not asked.
    Disabled,
    /// The detector decides, with the offline hangover.
    Offline,
    /// The detector decides, with the streaming hangover.
    Streaming,
}

/// What to do with a chunk of captured audio.
#[derive(Clone, Copy, Debug)]
pub enum ChunkDisposition {
    /// The chunk belongs to the recording.
    Capture,
    /// The chunk is dropped unseen.
    Discard,
}

/// Whether a recording cuts segments, given what its sink's gate read when
/// the recording began (`None`: the sink has no gate, and segments are cut).
pub fn gate_open(gate: Option<bool>) -> (r: bool)
    ensures
        r == match gate {
            Some(open) => open,
            None => true,
        },
{
    match gate {
        Some(open) => open,
        None => true,
    }
}

/// The recording and segment state that the frames drive.
pub struct Book<S> {
    /// Audio kept in the recording so far.
    pub samples: Seq<S>,
    /// Speech of the segment in progress.
    pub segment: Seq<S>,
    /// Noise frames that will still be kept before the hangover runs out.
    pub hangover_left: nat,
}

/// The book after one frame and the decision about it.
pub open spec fn step<S>(b: Book<S>, limit: nat, segments_on: bool, frame: Seq<S>, v: Verdict<S>) -> Book<S> {
    match v {
        Verdict::Speech(kept) => Book {
            samples: b.samples + kept,
            segment: if segments_on { b.segment + kept } else { b.segment },
            hangover_left: limit,
        },
        Verdict::Noise => if b.hangover_left > 0 {
            Book {
                samples: b.samples + frame,
                segment: if segments_on { b.segment + frame } else { b.segment },
                hangover_left: (b.hangover_left - 1) as nat,
            }
        } else {
            b
        },
        Verdict::SegmentEnd => Book {
            samples: b.samples,
            segment: if segments_on { Seq::empty() } else { b.segment },
            hangover_left: 0,
        },
    }
}

/// The segment that one step hands out, if any.
pub open spec fn step_emits<S>(b: Book<S>, segments_on: bool, v: Verdict<S>) -> Option<Seq<S>> {
    if v is SegmentEnd && segments_on && b.segment.len() > 0 {
        Some(b.segment)
    } else {
        None
    }
}

/// The book after a run of frames and the decisions about them.
pub open spec fn run<S>(
    b: Book<S>,
    limit: nat,
    segments_on: bool,
    frames: Seq<Seq<S>>,
    verdicts: Seq<Verdict<S>>,
) -> Book<S>
    decreases frames.len(),
{
    if frames.len() == 0 {
        b
    } else {
        step(
            run(b, limit, segments_on, frames.drop_last(), verdicts.drop_last()),
            limit,
            segments_on,
            frames.last(),
            verdicts.last(),
        )
    }
}

/// The segments handed out during a run of frames, in order.
pub open spec fn run_emits<S>(
    b: Book<S>,
    limit: nat,
    segments_on: bool,
    frames: Seq<Seq<S>>,
    verdicts: Seq<Verdict<S>>,
) -> Seq<Seq<S>>
    decreases frames.len(),
{
    if frames.len() == 0 {
        Seq::empty()
    } else {
        let before = run(b, limit, segments_on, frames.drop_last(), verdicts.drop_last());
        let earlier = run_emits(b, limit, segments_on, frames.drop_last(), verdicts.drop_last());
        match step_emits(before, segments_on, verdicts.last()) {
            Some(seg) => earlier.push(seg),
            None => earlier,
        }
    }
}

/// The parts laid end to end.
pub open spec fn concat<S>(parts: Seq<Seq<S>>) -> Seq<S>
    decreases parts.len(),
{
    if parts.len() == 0 {
        Seq::empty()
    } else {
        concat(parts.drop_last()) + parts.last()
    }
}

/// The contents of each vector.
pub open spec fn views<S>(v: Seq<Vec<S>>) -> Seq<Seq<S>> {
    v.map_values(|x: Vec<S>| x@)
}

/// Every frame kept whole, as when no detector is asked.
pub open spec fn speech_of<S>(frames: Seq<Seq<S>>) -> Seq<Verdict<S>> {
    frames.map_values(|f: Seq<S>| Verdict::Speech(f))
}

/// The decision about `frame`, and the detector after it: where the
/// recording asks a detector, its answer (a frame it cannot judge is kept
/// whole); otherwise the whole frame is kept and the detector is not asked.
pub open spec fn decide_one<S, D: VoiceActivityDetector<S>>(use_vad: bool, d: Option<D>, frame: Seq<S>) -> (Verdict<S>, Option<D>) {
    if use_vad && d is Some {
        let det = d.unwrap();
        (
            match det.spec_answer(frame) {
                Some(v) => v,
                None => Verdict::Speech(frame),
            },
            Some(det.spec_next(frame)),
        )
    } else {
        (Verdict::Speech(frame), d)
    }
}

/// Whether the decisions of a recording are known: it asks no detector, or
/// its detector type states its decisions.
pub open spec fn decided(use_vad: bool, obeys_decision_spec: bool) -> bool {
    !use_vad || obeys_decision_spec
}

/// The decisions about a run of frames, in order, and the detector after them.
pub open spec fn decide_run<S, D: VoiceActivityDetector<S>>(use_vad: bool, d: Option<D>, frames: Seq<Seq<S>>) -> (Seq<Verdict<S>>, Option<D>)
    decreases frames.len(),
{
    if frames.len() == 0 {
        (Seq::empty(), d)
    } else {
        let (vs, d1) = decide_run(use_vad, d, frames.drop_last());
        let (v, d2) = decide_one(use_vad, d1, frames.last());
        (vs.push(v), d2)
    }
}

/// The frames cut from a stream, the detector's decision on each, and the
/// segments handed out meanwhile.
pub struct ChunkOutput<S> {
    pub frames: Vec<Vec<S>>,
    pub verdicts: Vec<VadFrame<S>>,
    pub segments: Vec<Vec<S>>,
}

impl<S> ChunkOutput<S> {
    pub open spec fn frames_view(&self) -> Seq<Seq<S>> {
        views(self.frames@)
    }

    pub open spec fn segments_view(&self) -> Seq<Seq<S>> {
        views(self.segments@)
    }

    pub open spec fn verdicts_view(&self) -> Seq<Verdict<S>> {
        self.verdicts@.map_values(|v: VadFrame<S>| v@)
    }

    pub open spec fn is_empty(&self) -> bool {
        &&& self.frames@.len() == 0
        &&& self.verdicts@.len() == 0
        &&& self.segments@.len() == 0
    }

    pub fn empty() -> (r: ChunkOutput<S>)
        ensures
            r.is_empty(),
    {
        ChunkOutput { frames: Vec::new(), verdicts: Vec::new(), segments: Vec::new() }
    }
}

/// What a stopped recording leaves: the recorded audio, and what the flush
/// of the last partial frame and the final segment produced.
pub struct Recording<S> {
    pub samples: Vec<S>,
    pub output: ChunkOutput<S>,
}

/// Turns captured audio into a recording and speech segments.
pub struct CaptureProcessor<S, D> {
    detector: Option<D>,
    frame_samples: usize,
    offline_hangover: usize,
    streaming_hangover: usize,
    silence: S,
    sink: bool,
    recording: bool,
    use_vad: bool,
    segments_on: bool,
    hangover_limit: usize,
    hangover_left: usize,
    pending: Vec<S>,
    samples: Vec<S>,
    segment: Vec<S>,
}

impl<S: Copy, D: VoiceActivityDetector<S>> CaptureProcessor<S, D> {
    pub closed spec fn frame_len(&self) -> nat {
        self.frame_samples as nat
    }

    pub closed spec fn silence(&self) -> S {
        self.silence
    }

    /// The detector, in its present state.
    pub closed spec fn detector(&self) -> Option<D> {
        self.detector
    }

    pub open spec fn has_detector(&self) -> bool {
        self.detector() is Some
    }

    pub closed spec fn offline_hangover(&self) -> nat {
        self.offline_hangover as nat
    }

    pub closed spec fn streaming_hangover(&self) -> nat {
        self.streaming_hangover as nat
    }

    /// Whether a segment sink is attached.
    pub closed spec fn has_sink(&self) -> bool {
        self.sink
    }

    pub closed spec fn is_recording(&self) -> bool {
        self.recording
    }

    /// Whether the detector is asked about frames in the current recording.
    pub closed spec fn vad_in_use(&self) -> bool {
        self.use_vad
    }

    /// Whether segments are cut in the current recording.
    pub closed spec fn segments_on(&self) -> bool {
        self.segments_on
    }

    pub closed spec fn hangover_limit(&self) -> nat {
        self.hangover_limit as nat
    }

    /// Captured samples not yet making up a whole frame.
    pub closed spec fn pending(&self) -> Seq<S> {
        self.pending@
    }

    pub closed spec fn book(&self) -> Book<S> {
        Book { samples: self.samples@, segment: self.segment@, hangover_left: self.hangover_left as nat }
    }

    pub closed spec fn wf(&self) -> bool {
        &&& self.frame_samples > 0
        &&& self.pending@.len() < self.frame_samples
        &&& self.hangover_left <= self.hangover_limit
        &&& self.use_vad ==> self.detector is Some
        &&& !self.segments_on ==> self.segment@.len() == 0
        &&& !self.recording ==> {
            &&& self.pending@.len() == 0
            &&& self.samples@.len() == 0
            &&& self.segment@.len() == 0
            &&& self.hangover_left == 0
        }
    }

    /// The settings that a recording leaves unchanged.
    pub open spec fn same_settings(&self, other: &Self) -> bool {
        &&& self.frame_len() == other.frame_len()
        &&& self.silence() == other.silence()
        &&& self.has_detector() == other.has_detector()
        &&& self.offline_hangover() == other.offline_hangover()
        &&& self.streaming_hangover() == other.streaming_hangover()
        &&& self.has_sink() == other.has_sink()
    }

    /// The settings of the current recording that frames leave unchanged.
    pub open spec fn same_recording(&self, other: &Self) -> bool {
        &&& self.same_settings(other)
        &&& self.is_recording() == other.is_recording()
        &&& self.vad_in_use() == other.vad_in_use()
        &&& self.segments_on() == other.segments_on()
        &&& self.hangover_limit() == other.hangover_limit()
    }

    /// A processor that is not recording. Without a detector, frames are 30 ms
    /// long; with one, they have the configured detector frame length.
    /// `silence` pads the last partial frame of a recording.
    pub fn new(vad: Option<VadConfig<D>>, silence: S) -> (r: Self)
        requires
            vad matches Some(c) ==> c.frame_samples > 0,
        ensures
            r.wf(),
            !r.is_recording(),
            r.silence() == silence,
            r.detector() == match vad {
                Some(c) => Some(c.detector),
                None => None,
            },
            !r.has_sink(),
            match vad {
                Some(c) => {
                    &&& r.frame_len() == c.frame_samples
                    &&& r.offline_hangover() == c.offline_hangover_frames
                    &&& r.streaming_hangover() == c.streaming_hangover_frames
                },
                None => {
                    &&& r.frame_len() == DEFAULT_FRAME_SAMPLES
                    &&& r.offline_hangover() == 0
                    &&& r.streaming_hangover() == 0
                },
            },
    {
        let (detector, frame_samples, offline_hangover, streaming_hangover) = match vad {
            Some(c) => (Some(c.detector), c.frame_samples, c.offline_hangover_frames, c.streaming_hangover_frames),
            None => (None, DEFAULT_FRAME_SAMPLES, 0, 0),
        };
        CaptureProcessor {
            detector,
            frame_samples,
            offline_hangover,
            streaming_hangover,
            silence,
            sink: false,
            recording: false,
            use_vad: false,
            segments_on: false,
            hangover_limit: 0,
            hangover_left: 0,
            pending: Vec::new(),
            samples: Vec::new(),
            segment: Vec::new(),
        }
    }

    /// The same processor with a segment sink attached (`true`) or detached.
    /// The change takes effect when the next recording begins.
    pub fn with_segment_sink(self, sink: bool) -> (r: Self)
        requires
            self.wf(),
        ensures
            r.wf(),
            r.has_sink() == sink,
            r.frame_len() == self.frame_len(),
            r.silence() == self.silence(),
            r.detector() == self.detector(),
            r.offline_hangover() == self.offline_hangover(),
            r.streaming_hangover() == self.streaming_hangover(),
            r.is_recording() == self.is_recording(),
            r.vad_in_use() == self.vad_in_use(),
            r.segments_on() == self.segments_on(),
            r.hangover_limit() == self.hangover_limit(),
            r.pending() == self.pending(),
            r.book() == self.book(),
    {
        let mut r = self;
        r.sink = sink;
        r
    }

    /// Starts a recording. Segments are cut only where a sink is attached and
    /// its gate was open when the recording began.
    pub fn begin_recording(&mut self, policy: VadPolicy, gate_open: bool)
        requires
            old(self).wf(),
        ensures
            final(self).wf(),
            final(self).same_settings(old(self)),
            final(self).detector() == old(self).detector(),
            final(self).is_recording(),
            final(self).pending().len() == 0,
            final(self).book() == (Book::<S> { samples: Seq::empty(), segment: Seq::empty(), hangover_left: 0 }),
            final(self).vad_in_use() == (old(self).has_detector() && !(policy is Disabled)),
            final(self).segments_on() == (old(self).has_sink() && gate_open),
            final(self).hangover_limit() == match policy {
                VadPolicy::Disabled => 0,
                VadPolicy::Offline => old(self).offline_hangover(),
                VadPolicy::Streaming => old(self).streaming_hangover(),
            },
    {
        self.pending.clear();
        self.samples.clear();
        self.segment.clear();
        self.hangover_left = 0;
        self.recording = true;
        self.segments_on = self.sink && gate_open;
        match policy {
            VadPolicy::Disabled => {
                self.use_vad = false;
                self.hangover_limit = 0;
            },
            VadPolicy::Offline => {
                self.use_vad = self.detector.is_some();
                self.hangover_limit = self.offline_hangover;
            },
            VadPolicy::Streaming => {
                self.use_vad = self.detector.is_some();
                self.hangover_limit = self.streaming_hangover;
            },
        }
        proof {
            assert(self.book().samples =~= Seq::<S>::empty());
            assert(self.book().segment =~= Seq::<S>::empty());
        }
    }
}


proof fn lemma_run_push<S>(
    b: Book<S>,
    limit: nat,
    on: bool,
    frames: Seq<Seq<S>>,
    verdicts: Seq<Verdict<S>>,
    f: Seq<S>,
    v: Verdict<S>,
)
    ensures
        run(b, limit, on, frames.push(f), verdicts.push(v)) == step(run(b, limit, on, frames, verdicts), limit, on, f, v),
        run_emits(b, limit, on, frames.push(f), verdicts.push(v)) == match step_emits(run(b, limit, on, frames, verdicts), on, v) {
            Some(seg) => run_emits(b, limit, on, frames, verdicts).push(seg),
            None => run_emits(b, limit, on, frames, verdicts),
        },
{
    assert(frames.push(f).drop_last() =~= frames);
    assert(verdicts.push(v).drop_last() =~= verdicts);
}

proof fn lemma_decide_push<S, D: VoiceActivityDetector<S>>(use_vad: bool, d: Option<D>, frames: Seq<Seq<S>>, f: Seq<S>)
    ensures
        decide_run(use_vad, d, frames.push(f)) == ({
            let (vs, d1) = decide_run(use_vad, d, frames);
            let (v, d2) = decide_one(use_vad, d1, f);
            (vs.push(v), d2)
        }),
{
    assert(frames.push(f).drop_last() =~= frames);
}

proof fn lemma_decide_run_len<S, D: VoiceActivityDetector<S>>(use_vad: bool, d: Option<D>, frames: Seq<Seq<S>>)
    ensures
        decide_run(use_vad, d, frames).0.len() == frames.len(),
    decreases frames.len(),
{
    if frames.len() > 0 {
        lemma_decide_run_len(use_vad, d, frames.drop_last());
    }
}

proof fn lemma_concat_push<S>(parts: Seq<Seq<S>>, p: Seq<S>)
    ensures
        concat(parts.push(p)) == concat(parts) + p,
{
    assert(parts.push(p).drop_last() =~= parts);
}

/// Parts of equal length `n` laid end to end hold `n` samples per part.
pub proof fn lemma_concat_len<S>(parts: Seq<Seq<S>>, n: nat)
    requires
        forall|i: int| 0 <= i < parts.len() ==> (#[trigger] parts[i]).len() == n,
    ensures
        concat(parts).len() == parts.len() * n,
    decreases parts.len(),
{
    if parts.len() > 0 {
        let k = parts.len() as int;
        lemma_concat_len(parts.drop_last(), n);
        assert(parts.last().len() == n);
        assert((k - 1) * n + n == k * n) by (nonlinear_arith);
    }
}

/// `x` cut into whole frames of `n` samples, in order.
pub open spec fn cut_frames<S>(x: Seq<S>, n: nat) -> Seq<Seq<S>> {
    Seq::new(x.len() / n, |i: int| x.subrange(i * n, i * n + n))
}

/// The samples of `x` after its last whole frame of `n` samples.
pub open spec fn leftover<S>(x: Seq<S>, n: nat) -> Seq<S> {
    x.skip(((x.len() / n) * n) as int)
}

proof fn lemma_concat_part<S>(parts: Seq<Seq<S>>, n: nat, i: int)
    requires
        forall|j: int| 0 <= j < parts.len() ==> (#[trigger] parts[j]).len() == n,
        0 <= i < parts.len(),
    ensures
        concat(parts).subrange(i * n, i * n + n) == parts[i],
    decreases parts.len(),
{
    let k = parts.len() as int;
    let front = parts.drop_last();
    lemma_concat_len(front, n);
    assert(concat(parts) == concat(front) + parts.last());
    if i < k - 1 {
        lemma_concat_part(front, n, i);
        assert(i * n + n <= (k - 1) * n) by (nonlinear_arith)
            requires
                i < k - 1,
                n >= 0,
        ;
        assert(0 <= i * n) by (nonlinear_arith)
            requires
                i >= 0,
                n >= 0,
        ;
        assert(concat(parts).subrange(i * n, i * n + n) =~= concat(front).subrange(i * n, i * n + n));
        assert(front[i] == parts[i]);
    } else {
        assert(i * n == (k - 1) * n);
        assert(concat(parts).subrange(i * n, i * n + n) =~= parts.last());
    }
}

/// Cutting a stream into frames is determined: frames of `n` samples that,
/// followed by fewer than `n` leftover samples, make up `x`, are exactly the
/// whole frames of `x`, and the leftover is what follows them.
pub proof fn lemma_framing_is_determined<S>(frames: Seq<Seq<S>>, rest: Seq<S>, x: Seq<S>, n: nat)
    requires
        n > 0,
        concat(frames) + rest == x,
        forall|i: int| 0 <= i < frames.len() ==> (#[trigger] frames[i]).len() == n,
        rest.len() < n,
    ensures
        frames == cut_frames(x, n),
        rest == leftover(x, n),
{
    let k = frames.len() as int;
    lemma_concat_len(frames, n);
    let len = x.len() as int;
    assert(len == k * n + rest.len());
    assert(len / (n as int) == k) by (nonlinear_arith)
        requires
            len == k * n + rest.len(),
            0 <= rest.len() < n,
            k >= 0,
    ;
    let c = cut_frames(x, n);
    assert forall|i: int| 0 <= i < k implies #[trigger] c[i] == frames[i] by {
        lemma_concat_part(frames, n, i);
        assert(i * n + n <= k * n) by (nonlinear_arith)
            requires
                i < k,
                n >= 0,
        ;
        assert(0 <= i * n) by (nonlinear_arith)
            requires
                i >= 0,
                n >= 0,
        ;
        assert(x.subrange(i * n, i * n + n) =~= concat(frames).subrange(i * n, i * n + n));
    }
    assert(c =~= frames);
    assert(rest =~= x.skip(k * n));
}

proof fn lemma_views_push<S>(v: Seq<Vec<S>>, x: Vec<S>)
    ensures
        views(v.push(x)) == views(v).push(x@),
{
    assert(views(v.push(x)) =~= views(v).push(x@));
}

proof fn lemma_verdict_views_push<S>(v: Seq<VadFrame<S>>, x: VadFrame<S>)
    ensures
        v.push(x).map_values(|y: VadFrame<S>| y@) == v.map_values(|y: VadFrame<S>| y@).push(x@),
{
    assert(v.push(x).map_values(|y: VadFrame<S>| y@) =~= v.map_values(|y: VadFrame<S>| y@).push(x@));
}

impl<S: Copy, D: VoiceActivityDetector<S>> CaptureProcessor<S, D> {
    fn apply_verdict(&mut self, frame: &Vec<S>, verdict: &VadFrame<S>) -> (emitted: Option<Vec<S>>)
        requires
            old(self).wf(),
            old(self).is_recording(),
        ensures
            final(self).wf(),
            final(self).same_recording(old(self)),
            final(self).detector() == old(self).detector(),
            final(self).pending() == old(self).pending(),
            final(self).book() == step(old(self).book(), old(self).hangover_limit(), old(self).segments_on(), frame@, verdict@),
            match emitted {
                Some(seg) => step_emits(old(self).book(), old(self).segments_on(), verdict@) == Some(seg@),
                None => step_emits(old(self).book(), old(self).segments_on(), verdict@) is None,
            },
    {
        match verdict {
            VadFrame::Speech(kept) => {
                append_all(&mut self.samples, kept.as_slice());
                if self.segments_on {
                    append_all(&mut self.segment, kept.as_slice());
                }
                self.hangover_left = self.hangover_limit;
                None
            },
            VadFrame::Noise => {
                if self.hangover_left > 0 {
                    append_all(&mut self.samples, frame.as_slice());
                    if self.segments_on {
                        append_all(&mut self.segment, frame.as_slice());
                    }
                    self.hangover_left = self.hangover_left - 1;
                }
                None
            },
            VadFrame::SegmentEnd => {
                self.hangover_left = 0;
                if self.segments_on && self.segment.len() > 0 {
                    let mut seg: Vec<S> = Vec::new();
                    std::mem::swap(&mut seg, &mut self.segment);
                    Some(seg)
                } else {
                    proof {
                        if self.segments_on {
                            assert(self.segment@ =~= Seq::<S>::empty());
                        }
                    }
                    None
                }
            },
        }
    }

    fn handle_frame(&mut self, frame: Vec<S>, out: &mut ChunkOutput<S>)
        requires
            old(self).wf(),
            old(self).is_recording(),
        ensures
            final(self).wf(),
            final(self).same_recording(old(self)),
            final(self).pending() == old(self).pending(),
            decided(old(self).vad_in_use(), D::obeys_decision_spec()) ==> {
                &&& final(self).detector() == decide_one(old(self).vad_in_use(), old(self).detector(), frame@).1
                &&& final(out).verdicts_view().last() == decide_one(old(self).vad_in_use(), old(self).detector(), frame@).0
            },
            final(out).frames_view() == old(out).frames_view().push(frame@),
            final(out).verdicts@.len() == old(out).verdicts@.len() + 1,
            final(out).verdicts_view().drop_last() == old(out).verdicts_view(),
            final(self).book() == step(
                old(self).book(),
                old(self).hangover_limit(),
                old(self).segments_on(),
                frame@,
                final(out).verdicts_view().last(),
            ),
            final(out).segments_view() == match step_emits(
                old(self).book(),
                old(self).segments_on(),
                final(out).verdicts_view().last(),
            ) {
                Some(seg) => old(out).segments_view().push(seg),
                None => old(out).segments_view(),
            },
    {
        let verdict: VadFrame<S> = if self.use_vad {
            match &mut self.detector {
                Some(d) => match d.push_frame(frame.as_slice()) {
                    Ok(v) => v,
                    Err(_) => VadFrame::Speech(copy_of(frame.as_slice())),
                },
                None => VadFrame::Speech(copy_of(frame.as_slice())),
            }
        } else {
            VadFrame::Speech(copy_of(frame.as_slice()))
        };
        proof {
            if decided(old(self).vad_in_use(), D::obeys_decision_spec()) {
                assert(verdict@ == decide_one(old(self).vad_in_use(), old(self).detector(), frame@).0);
            }
        }
        let emitted = self.apply_verdict(&frame, &verdict);
        let ghost old_segments = out.segments@;
        match emitted {
            Some(seg) => {
                out.segments.push(seg);
                proof {
                    lemma_views_push(old_segments, seg);
                }
            },
            None => {},
        }
        let ghost old_frames = out.frames@;
        let ghost old_verdicts = out.verdicts@;
        out.frames.push(frame);
        out.verdicts.push(verdict);
        proof {
            lemma_views_push(old_frames, frame);
            lemma_verdict_views_push(old_verdicts, verdict);
            assert(out.verdicts_view().drop_last() =~= old_verdicts.map_values(|y: VadFrame<S>| y@));
        }
    }

    /// Feeds a chunk of captured audio. A chunk to discard, or any chunk while
    /// no recording runs, changes nothing. Otherwise the chunk is appended to
    /// the samples awaiting framing, and every whole frame is cut off in order,
    /// decided (by the detector where the recording asks one; a frame it
    /// cannot judge is kept whole) and booked.
    pub fn process_raw_chunk(&mut self, chunk: &[S], disposition: ChunkDisposition) -> (out: ChunkOutput<S>)
        requires
            old(self).wf(),
        ensures
            final(self).wf(),
            final(self).same_recording(old(self)),
            (disposition is Discard || !old(self).is_recording()) ==> (*final(self) == *old(self) && out.is_empty()),
            final(self).pending().len() < final(self).frame_len(),
            (disposition is Capture && old(self).is_recording()) ==> {
                &&& concat(out.frames_view()) + final(self).pending() == old(self).pending() + chunk@
                &&& forall|i: int| 0 <= i < out.frames_view().len() ==> (#[trigger] out.frames_view()[i]).len() == old(self).frame_len()
                &&& out.frames@.len() * old(self).frame_len() + final(self).pending().len() == old(self).pending().len() + chunk@.len()
                &&& out.frames_view() == cut_frames(old(self).pending() + chunk@, old(self).frame_len())
                &&& final(self).pending() == leftover(old(self).pending() + chunk@, old(self).frame_len())
                &&& out.verdicts@.len() == out.frames@.len()
                &&& decided(old(self).vad_in_use(), D::obeys_decision_spec()) ==> {
                    &&& out.verdicts_view() == decide_run(old(self).vad_in_use(), old(self).detector(), out.frames_view()).0
                    &&& final(self).detector() == decide_run(old(self).vad_in_use(), old(self).detector(), out.frames_view()).1
                }
                &&& final(self).book() == run(
                    old(self).book(),
                    old(self).hangover_limit(),
                    old(self).segments_on(),
                    out.frames_view(),
                    out.verdicts_view(),
                )
                &&& out.segments_view() == run_emits(
                    old(self).book(),
                    old(self).hangover_limit(),
                    old(self).segments_on(),
                    out.frames_view(),
                    out.verdicts_view(),
                )
            },
    {
        let mut out = ChunkOutput::empty();
        match disposition {
            ChunkDisposition::Discard => {
                return out;
            },
            ChunkDisposition::Capture => {},
        }
        if !self.recording {
            return out;
        }
        let ghost start: Self = *self;
        proof {
            assert(out.frames_view() =~= Seq::<Seq<S>>::empty());
            assert(out.segments_view() =~= Seq::<Seq<S>>::empty());
            assert(out.verdicts_view() =~= Seq::<Verdict<S>>::empty());
            assert(concat(out.frames_view()) + self.pending() =~= start.pending() + chunk@.take(0));
        }
        let mut i: usize = 0;
        while i < chunk.len()
            invariant
                i <= chunk@.len(),
                self.wf(),
                self.same_recording(&start),
                self.is_recording(),
                concat(out.frames_view()) + self.pending() == start.pending() + chunk@.take(i as int),
                forall|k: int| 0 <= k < out.frames_view().len() ==> (#[trigger] out.frames_view()[k]).len() == start.frame_len(),
                out.verdicts@.len() == out.frames@.len(),
                out.verdicts_view().len() == out.frames@.len(),
                decided(start.vad_in_use(), D::obeys_decision_spec()) ==> {
                    &&& out.verdicts_view() == decide_run(start.vad_in_use(), start.detector(), out.frames_view()).0
                    &&& self.detector() == decide_run(start.vad_in_use(), start.detector(), out.frames_view()).1
                },
                self.book() == run(start.book(), start.hangover_limit(), start.segments_on(), out.frames_view(), out.verdicts_view()),
                out.segments_view() == run_emits(start.book(), start.hangover_limit(), start.segments_on(), out.frames_view(), out.verdicts_view()),
            decreases chunk@.len() - i,
        {
            let ghost before_pending = self.pending@;
            self.pending.push(chunk[i]);
            i = i + 1;
            proof {
                assert(chunk@.take(i as int) =~= chunk@.take(i - 1).push(chunk@[i - 1]));
                assert(self.pending() == before_pending.push(chunk@[i - 1]));
                assert(concat(out.frames_view()) + before_pending == start.pending() + chunk@.take(i - 1));
                assert(concat(out.frames_view()) + before_pending.push(chunk@[i - 1]) =~= (concat(out.frames_view()) + before_pending).push(chunk@[i - 1]));
                assert((start.pending() + chunk@.take(i - 1)).push(chunk@[i - 1]) =~= start.pending() + chunk@.take(i as int));
            }
            if self.pending.len() == self.frame_samples {
                let mut frame: Vec<S> = Vec::new();
                std::mem::swap(&mut frame, &mut self.pending);
                let ghost frames0 = out.frames_view();
                let ghost verdicts0 = out.verdicts_view();
                proof {
                    assert(self.pending@ =~= Seq::<S>::empty());
                }
                self.handle_frame(frame, &mut out);
                proof {
                    let v = out.verdicts_view().last();
                    assert(out.verdicts_view() =~= verdicts0.push(v));
                    lemma_decide_push(start.vad_in_use(), start.detector(), frames0, frame@);
                    lemma_run_push(start.book(), start.hangover_limit(), start.segments_on(), frames0, verdicts0, frame@, v);
                    lemma_concat_push(frames0, frame@);
                    assert(concat(out.frames_view()) + self.pending() =~= start.pending() + chunk@.take(i as int));
                    assert forall|k: int| 0 <= k < out.frames_view().len() implies (#[trigger] out.frames_view()[k]).len() == start.frame_len() by {
                        if k < frames0.len() {
                            assert(out.frames_view()[k] == frames0[k]);
                        }
                    }
                }
            }
        }
        proof {
            assert(chunk@.take(i as int) =~= chunk@);
            lemma_concat_len(out.frames_view(), start.frame_len());
            lemma_framing_is_determined(out.frames_view(), self.pending(), start.pending() + chunk@, start.frame_len());
        }
        out
    }
}


/// `pending` padded with `silence` to a whole frame of `n` samples.
pub open spec fn padded<S>(pending: Seq<S>, n: nat, silence: S) -> Seq<S> {
    pending + Seq::new((n - pending.len()) as nat, |i: int| silence)
}

/// The frames that stopping a recording flushes: the padded partial frame, if
/// any samples await framing.
pub open spec fn flush_frames<S>(pending: Seq<S>, n: nat, silence: S) -> Seq<Seq<S>> {
    if pending.len() == 0 {
        Seq::empty()
    } else {
        seq![padded(pending, n, silence)]
    }
}

/// The segment in progress when a recording stops, if it is to be handed out.
pub open spec fn final_segment<S>(b: Book<S>, segments_on: bool) -> Seq<Seq<S>> {
    if segments_on && b.segment.len() >= MIN_FINAL_SEGMENT_SAMPLES {
        seq![b.segment]
    } else {
        Seq::empty()
    }
}

impl<S: Copy, D: VoiceActivityDetector<S>> CaptureProcessor<S, D> {
    /// Stops the recording. The samples awaiting framing are padded with
    /// silence to a whole frame, which is judged and booked like any other;
    /// then the segment in progress is handed out if it is long enough, and
    /// the recorded audio is returned. Without a running recording nothing
    /// changes and nothing is returned.
    pub fn finish_recording(&mut self) -> (r: Recording<S>)
        requires
            old(self).wf(),
        ensures
            final(self).wf(),
            final(self).same_settings(old(self)),
            !final(self).is_recording(),
            final(self).pending().len() == 0,
            final(self).book() == (Book::<S> { samples: Seq::empty(), segment: Seq::empty(), hangover_left: 0 }),
            !old(self).is_recording() ==> {
                &&& *final(self) == *old(self)
                &&& r.samples@.len() == 0
                &&& r.output.is_empty()
            },
            old(self).is_recording() ==> {
                let flushed = flush_frames(old(self).pending(), old(self).frame_len(), old(self).silence());
                let b = run(old(self).book(), old(self).hangover_limit(), old(self).segments_on(), flushed, r.output.verdicts_view());
                &&& r.output.frames_view() == flushed
                &&& r.output.verdicts@.len() == flushed.len()
                &&& decided(old(self).vad_in_use(), D::obeys_decision_spec()) ==> {
                    &&& r.output.verdicts_view() == decide_run(old(self).vad_in_use(), old(self).detector(), flushed).0
                    &&& final(self).detector() == decide_run(old(self).vad_in_use(), old(self).detector(), flushed).1
                }
                &&& r.samples@ == b.samples
                &&& r.output.segments_view() == run_emits(
                    old(self).book(),
                    old(self).hangover_limit(),
                    old(self).segments_on(),
                    flushed,
                    r.output.verdicts_view(),
                ) + final_segment(b, old(self).segments_on())
            },
    {
        let mut out = ChunkOutput::empty();
        if !self.recording {
            proof {
                assert(self.book().samples =~= Seq::<S>::empty());
                assert(self.book().segment =~= Seq::<S>::empty());
            }
            return Recording { samples: Vec::new(), output: out };
        }
        let ghost start: Self = *self;
        let ghost flushed = flush_frames(start.pending(), start.frame_len(), start.silence());
        proof {
            assert(out.frames_view() =~= Seq::<Seq<S>>::empty());
            assert(out.segments_view() =~= Seq::<Seq<S>>::empty());
            assert(out.verdicts@ =~= Seq::<VadFrame<S>>::empty());
            assert(out.verdicts_view() =~= Seq::<Verdict<S>>::empty());
        }
        if self.pending.len() > 0 {
            let mut frame: Vec<S> = Vec::new();
            std::mem::swap(&mut frame, &mut self.pending);
            let ghost p0 = frame@;
            proof {
                assert(frame@ =~= p0 + Seq::new((frame@.len() - p0.len()) as nat, |i: int| start.silence));
            }
            while frame.len() < self.frame_samples
                invariant
                    p0.len() <= frame@.len() <= self.frame_samples,
                    self.silence == start.silence,
                    frame@ == p0 + Seq::new((frame@.len() - p0.len()) as nat, |i: int| start.silence),
                decreases self.frame_samples - frame@.len(),
            {
                frame.push(self.silence);
                assert(frame@ =~= p0 + Seq::new((frame@.len() - p0.len()) as nat, |i: int| start.silence));
            }
            proof {
                assert(frame@ == padded(p0, start.frame_len(), start.silence()));
                assert(self.pending@ =~= Seq::<S>::empty());
            }
            let ghost verdicts0 = out.verdicts_view();
            self.handle_frame(frame, &mut out);
            proof {
                let v = out.verdicts_view().last();
                assert(flushed =~= Seq::<Seq<S>>::empty().push(frame@));
                lemma_decide_push(start.vad_in_use(), start.detector(), Seq::<Seq<S>>::empty(), frame@);
                lemma_run_push(start.book(), start.hangover_limit(), start.segments_on(), Seq::<Seq<S>>::empty(), verdicts0, frame@, v);
                assert(out.verdicts_view() =~= verdicts0.push(v));
            }
        } else {
            proof {
                assert(flushed =~= Seq::<Seq<S>>::empty());
            }
        }
        let ghost b = self.book();
        let ghost segs0 = out.segments@;
        if self.segments_on && self.segment.len() >= MIN_FINAL_SEGMENT_SAMPLES {
            let mut seg: Vec<S> = Vec::new();
            std::mem::swap(&mut seg, &mut self.segment);
            out.segments.push(seg);
            proof {
                lemma_views_push(segs0, seg);
                assert(views(segs0).push(seg@) =~= views(segs0) + final_segment(b, start.segments_on()));
            }
        } else {
            proof {
                assert(views(segs0) =~= views(segs0) + final_segment(b, start.segments_on()));
            }
        }
        self.segment.clear();
        let mut samples: Vec<S> = Vec::new();
        std::mem::swap(&mut samples, &mut self.samples);
        self.recording = false;
        self.hangover_left = 0;
        proof {
            assert(self.book().samples =~= Seq::<S>::empty());
            assert(self.book().segment =~= Seq::<S>::empty());
        }
        Recording { samples, output: out }
    }
}


/// Cutting segments never changes what is recorded: two runs over the same
/// frames and decisions, from books with the same recording and hangover,
/// record the same audio and end with the same hangover, whether segments are
/// cut in either of them or not.
pub proof fn lemma_segments_never_change_recording<S>(
    b1: Book<S>,
    b2: Book<S>,
    limit: nat,
    on1: bool,
    on2: bool,
    frames: Seq<Seq<S>>,
    verdicts: Seq<Verdict<S>>,
)
    requires
        b1.samples == b2.samples,
        b1.hangover_left == b2.hangover_left,
        verdicts.len() == frames.len(),
    ensures
        run(b1, limit, on1, frames, verdicts).samples == run(b2, limit, on2, frames, verdicts).samples,
        run(b1, limit, on1, frames, verdicts).hangover_left == run(b2, limit, on2, frames, verdicts).hangover_left,
    decreases frames.len(),
{
    if frames.len() > 0 {
        lemma_segments_never_change_recording(b1, b2, limit, on1, on2, frames.drop_last(), verdicts.drop_last());
    }
}

/// Where segments are not cut (no sink, or its gate was closed when the
/// recording began), no segment is ever handed out and the segment in
/// progress stays as it was.
pub proof fn lemma_closed_gate_cuts_no_segments<S>(
    b: Book<S>,
    limit: nat,
    frames: Seq<Seq<S>>,
    verdicts: Seq<Verdict<S>>,
)
    requires
        verdicts.len() == frames.len(),
    ensures
        run_emits(b, limit, false, frames, verdicts).len() == 0,
        run(b, limit, false, frames, verdicts).segment == b.segment,
    decreases frames.len(),
{
    if frames.len() > 0 {
        lemma_closed_gate_cuts_no_segments(b, limit, frames.drop_last(), verdicts.drop_last());
    }
}

/// Where segments are cut, they partition the recorded speech: the recording
/// only grows, and the segments handed out, followed by the segment in
/// progress, are exactly the segment in progress at the start followed by the
/// audio recorded meanwhile.
pub proof fn lemma_segments_partition_recording<S>(
    b: Book<S>,
    limit: nat,
    frames: Seq<Seq<S>>,
    verdicts: Seq<Verdict<S>>,
)
    requires
        verdicts.len() == frames.len(),
    ensures
        ({
            let r = run(b, limit, true, frames, verdicts);
            &&& b.samples.len() <= r.samples.len()
            &&& r.samples.take(b.samples.len() as int) == b.samples
            &&& concat(run_emits(b, limit, true, frames, verdicts)) + r.segment == b.segment + r.samples.skip(
                b.samples.len() as int,
            )
        }),
    decreases frames.len(),
{
    let n = b.samples.len() as int;
    if frames.len() == 0 {
        assert(b.samples.take(n) =~= b.samples);
        assert(concat(Seq::<Seq<S>>::empty()) + b.segment =~= b.segment + b.samples.skip(n));
    } else {
        let fs = frames.drop_last();
        let vs = verdicts.drop_last();
        lemma_segments_partition_recording(b, limit, fs, vs);
        let r0 = run(b, limit, true, fs, vs);
        let e0 = run_emits(b, limit, true, fs, vs);
        let r = run(b, limit, true, frames, verdicts);
        let e = run_emits(b, limit, true, frames, verdicts);
        let f = frames.last();
        let v = verdicts.last();
        assert(concat(e0) + r0.segment == b.segment + r0.samples.skip(n));
        match v {
            Verdict::Speech(kept) => {
                assert(r.samples.take(n) =~= r0.samples.take(n));
                assert(r.samples.skip(n) =~= r0.samples.skip(n) + kept);
                assert(concat(e) + r.segment =~= (concat(e0) + r0.segment) + kept);
            },
            Verdict::Noise => {
                if r0.hangover_left > 0 {
                    assert(r.samples.take(n) =~= r0.samples.take(n));
                    assert(r.samples.skip(n) =~= r0.samples.skip(n) + f);
                    assert(concat(e) + r.segment =~= (concat(e0) + r0.segment) + f);
                }
            },
            Verdict::SegmentEnd => {
                if r0.segment.len() > 0 {
                    lemma_concat_push(e0, r0.segment);
                    assert(concat(e) + r.segment =~= concat(e0) + r0.segment);
                } else {
                    assert(concat(e) + r.segment =~= concat(e0) + r0.segment);
                }
            },
        }
    }
}

/// Where the recording does not ask a detector, every frame is decided as
/// kept whole and the detector is left as it was.
pub proof fn lemma_decide_run_without_detector<S, D: VoiceActivityDetector<S>>(d: Option<D>, frames: Seq<Seq<S>>)
    ensures
        decide_run(false, d, frames) == (speech_of(frames), d),
    decreases frames.len(),
{
    if frames.len() == 0 {
        assert(speech_of(frames) =~= Seq::<Verdict<S>>::empty());
    } else {
        lemma_decide_run_without_detector(d, frames.drop_last());
        assert(speech_of(frames.drop_last()).push(Verdict::Speech(frames.last())) =~= speech_of(frames));
    }
}

/// When every decision keeps exactly its frame (no detector is asked), the
/// recording grows by exactly the frames, in order.
pub proof fn lemma_without_detector_every_frame_is_recorded<S>(
    b: Book<S>,
    limit: nat,
    segments_on: bool,
    frames: Seq<Seq<S>>,
)
    ensures
        run(b, limit, segments_on, frames, speech_of(frames)).samples == b.samples + concat(frames),
    decreases frames.len(),
{
    if frames.len() == 0 {
        assert(b.samples + concat(frames) =~= b.samples);
    } else {
        let fs = frames.drop_last();
        assert(speech_of(frames).drop_last() =~= speech_of(fs));
        lemma_without_detector_every_frame_is_recorded(b, limit, segments_on, fs);
        assert(b.samples + concat(frames) =~= (b.samples + concat(fs)) + frames.last());
    }
}


/// The scripted detector, asked about a run of frames, decides the `i`-th
/// frame by the `i`-th remaining script character (noise once the script is
/// spent) and is left with the rest of its script.
pub proof fn lemma_scripted_run<S: Copy>(d: ScriptedFrameVad, frames: Seq<Seq<S>>)
    ensures
        decide_run(true, Some(d), frames).0.len() == frames.len(),
        forall|i: int| 0 <= i < frames.len() ==> #[trigger] decide_run(true, Some(d), frames).0[i] == scripted_verdict(
            char_at(d.remaining(), i),
            frames[i],
        ),
        decide_run(true, Some(d), frames).1 matches Some(d2) && d2.remaining() == scripted_after(d, frames.len()),
    decreases frames.len(),
{
    lemma_decide_run_len(true, Some(d), frames);
    if frames.len() == 0 {
        assert(d.remaining().skip(0) =~= d.remaining());
    } else {
        let fs = frames.drop_last();
        let k = fs.len();
        lemma_scripted_run(d, fs);
        let d1 = decide_run(true, Some(d), fs).1.unwrap();
        lemma_scripted_step(d1, frames.last());
        let rem = d.remaining();
        if k < rem.len() {
            assert(d1.remaining() == rem.skip(k as int));
            assert(d1.upcoming() == char_at(rem, k as int));
            assert(d1.remaining().drop_first() =~= rem.skip(k + 1 as int));
        } else {
            assert(d1.remaining().len() == 0);
            assert(d1.upcoming() == char_at(rem, k as int));
            if k == rem.len() {
                assert(d1.remaining() =~= Seq::<char>::empty());
            }
        }
        let all = decide_run(true, Some(d), frames).0;
        let prev = decide_run(true, Some(d), fs).0;
        assert forall|i: int| 0 <= i < frames.len() implies #[trigger] all[i] == scripted_verdict(char_at(rem, i), frames[i]) by {
            if i < k {
                assert(all[i] == prev[i]);
                assert(fs[i] == frames[i]);
            }
        }
    }
}


/// Two processors in the same recording state, which differ at most in
/// whether they cut segments (a sink is attached, its gate was open), record
/// the same audio from the same chunk: `process_raw_chunk` cuts the same
/// frames in both, and where their decisions are stated (`decided`) it decides
/// them alike, so both recordings, hangovers and detectors end equal.
pub proof fn lemma_sink_never_changes_recording<S: Copy, D: VoiceActivityDetector<S>>(
    p1: CaptureProcessor<S, D>,
    p2: CaptureProcessor<S, D>,
    chunk: Seq<S>,
)
    requires
        p1.frame_len() == p2.frame_len(),
        p1.pending() == p2.pending(),
        p1.vad_in_use() == p2.vad_in_use(),
        p1.detector() == p2.detector(),
        p1.hangover_limit() == p2.hangover_limit(),
        p1.book().samples == p2.book().samples,
        p1.book().hangover_left == p2.book().hangover_left,
    ensures
        ({
            let frames1 = cut_frames(p1.pending() + chunk, p1.frame_len());
            let frames2 = cut_frames(p2.pending() + chunk, p2.frame_len());
            let decided1 = decide_run(p1.vad_in_use(), p1.detector(), frames1);
            let decided2 = decide_run(p2.vad_in_use(), p2.detector(), frames2);
            let r1 = run(p1.book(), p1.hangover_limit(), p1.segments_on(), frames1, decided1.0);
            let r2 = run(p2.book(), p2.hangover_limit(), p2.segments_on(), frames2, decided2.0);
            &&& frames1 == frames2
            &&& decided1 == decided2
            &&& r1.samples == r2.samples
            &&& r1.hangover_left == r2.hangover_left
        }),
{
    let frames = cut_frames(p1.pending() + chunk, p1.frame_len());
    lemma_decide_run_len(p1.vad_in_use(), p1.detector(), frames);
    lemma_segments_never_change_recording(
        p1.book(),
        p2.book(),
        p1.hangover_limit(),
        p1.segments_on(),
        p2.segments_on(),
        frames,
        decide_run(p1.vad_in_use(), p1.detector(), frames).0,
    );
}


/// A frame decided as speech adds to the recording exactly the audio the
/// decision keeps, whatever its length against the frame's (a detector may
/// release audio it held back), and adds the same audio to the segment in
/// progress where segments are cut; nothing is handed out.
pub proof fn lemma_speech_keeps_exactly_the_released_audio<S>(
    b: Book<S>,
    limit: nat,
    segments_on: bool,
    frames: Seq<Seq<S>>,
    verdicts: Seq<Verdict<S>>,
    frame: Seq<S>,
    kept: Seq<S>,
)
    ensures
        ({
            let before = run(b, limit, segments_on, frames, verdicts);
            let after = run(b, limit, segments_on, frames.push(frame), verdicts.push(Verdict::Speech(kept)));
            &&& after.samples == before.samples + kept
            &&& segments_on ==> after.segment == before.segment + kept
            &&& !segments_on ==> after.segment == before.segment
            &&& run_emits(b, limit, segments_on, frames.push(frame), verdicts.push(Verdict::Speech(kept)))
                == run_emits(b, limit, segments_on, frames, verdicts)
        }),
{
    lemma_run_push(b, limit, segments_on, frames, verdicts, frame, Verdict::Speech(kept));
}

/// Stopping hands out, beyond the segments cut at boundaries, at most the
/// segment in progress, and only where segments are cut and that segment
/// holds at least 350 ms of audio; a shorter one is never handed out,
/// however much was recorded before it.
pub proof fn lemma_final_segment_is_the_long_open_segment<S>(b: Book<S>, segments_on: bool)
    ensures
        final_segment(b, segments_on).len() <= 1,
        final_segment(b, segments_on).len() == 1 ==> {
            &&& segments_on
            &&& b.segment.len() >= 5600
            &&& final_segment(b, segments_on)[0] == b.segment
        },
        b.segment.len() < 5600 ==> final_segment(b, segments_on).len() == 0,
        segments_on && b.segment.len() >= 5600 ==> final_segment(b, segments_on).len() == 1,
{
}

} // verus!
