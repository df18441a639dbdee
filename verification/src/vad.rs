//! The interface between the capture pipeline and a voice-activity detector,
//! and a detector that replays a scripted sequence of decisions.

use vstd::prelude::*;
use crate::errors::chars_of;

verus! {

/// Length of one 30 ms frame at the 16 kHz working rate.
pub const SEG_FRAME: usize = 480;

/// What a detector decided about one frame of audio.
pub enum VadFrame<S> {
    /// Audio to keep: the frame itself, or more than it where the detector
    /// releases audio that it held back.
    Speech(Vec<S>),
    /// Nothing to keep for this frame.
    Noise,
    /// The current utterance ended before this frame; the frame is not kept.
    SegmentEnd,
}

/// A decision about one frame, with the kept audio as a sequence.
pub enum Verdict<S> {
    Speech(Seq<S>),
    Noise,
    SegmentEnd,
}

impl<S> View for VadFrame<S> {
    type V = Verdict<S>;

    open spec fn view(&self) -> Verdict<S> {
        match self {
            VadFrame::Speech(kept) => Verdict::Speech(kept@),
            VadFrame::Noise => Verdict::Noise,
            VadFrame::SegmentEnd => Verdict::SegmentEnd,
        }
    }
}

/// A detector could not judge a frame; the message says why.
#[derive(Debug)]
pub struct VadError(pub String);

/// A voice-activity detector fed with consecutive frames of equal length.
///
/// A detector type whose `obeys_decision_spec` is `true` states its
/// decisions: `spec_answer` is its answer for a frame in its present state,
/// and `spec_next` its state after judging that frame. The contract of
/// `push_frame` binds only such types; the others keep the defaults, which
/// state nothing.
pub trait VoiceActivityDetector<S>: Sized {
    /// Whether `spec_answer` and `spec_next` describe this detector type.
    open spec fn obeys_decision_spec() -> bool {
        false
    }

    /// The detector's answer for `frame` in its present state; `None` where
    /// it cannot judge the frame.
    open spec fn spec_answer(&self, frame: Seq<S>) -> Option<Verdict<S>> {
        None
    }

    /// The detector's state after it judged `frame`.
    open spec fn spec_next(&self, frame: Seq<S>) -> Self {
        *self
    }

    /// Judges the next frame.
    fn push_frame(&mut self, frame: &[S]) -> (r: Result<VadFrame<S>, VadError>)
        ensures
            Self::obeys_decision_spec() ==> {
                &&& match r {
                    Ok(v) => old(self).spec_answer(frame@) == Some(v@),
                    Err(_) => old(self).spec_answer(frame@) is None,
                }
                &&& *final(self) == old(self).spec_next(frame@)
            },
    ;

    /// The frame length, in samples, that this detector works on.
    fn frame_samples(&self) -> usize;
}

/// A detector together with the framing and hangover settings it is used with.
pub struct VadConfig<D> {
    pub detector: D,
    /// Samples per frame handed to the detector.
    pub frame_samples: usize,
    /// Noise frames still kept after speech when recording for offline transcription.
    pub offline_hangover_frames: usize,
    /// Noise frames still kept after speech when recording for streaming transcription.
    pub streaming_hangover_frames: usize,
}

/// A detector that replays a script of decisions, one character per frame:
/// `S` is speech, `E` is the end of a segment, any other character (and the
/// end of the script) is noise.
pub struct ScriptedFrameVad {
    pub script: Vec<char>,
    /// Position of the next script character to replay.
    pub next: usize,
    pub frame_samples: usize,
}

/// The decision that the script character `c` stands for, applied to `frame`.
pub open spec fn scripted_verdict<S>(c: Option<char>, frame: Seq<S>) -> Verdict<S> {
    if c == Some('S') {
        Verdict::Speech(frame)
    } else if c == Some('E') {
        Verdict::SegmentEnd
    } else {
        Verdict::Noise
    }
}

/// The `i`-th character of `s`, if it has one.
pub open spec fn char_at(s: Seq<char>, i: int) -> Option<char> {
    if 0 <= i < s.len() {
        Some(s[i])
    } else {
        None
    }
}

impl ScriptedFrameVad {
    /// The script characters not replayed yet.
    pub open spec fn remaining(&self) -> Seq<char> {
        if self.next <= self.script@.len() {
            self.script@.subrange(self.next as int, self.script@.len() as int)
        } else {
            Seq::empty()
        }
    }

    /// The next script character, if any is left.
    pub open spec fn upcoming(&self) -> Option<char> {
        char_at(self.remaining(), 0)
    }

    /// A detector that replays `script`, reporting `frame_samples` as its frame length.
    pub fn new(script: &str, frame_samples: usize) -> (r: ScriptedFrameVad)
        ensures
            r.remaining() == script@,
            r.frame_samples == frame_samples,
    {
        let r = ScriptedFrameVad { script: chars_of(script), next: 0, frame_samples };
        assert(r.remaining() =~= script@);
        r
    }
}

/// `dst` followed by `src`.
pub(crate) fn append_all<S: Copy>(dst: &mut Vec<S>, src: &[S])
    ensures
        final(dst)@ == old(dst)@ + src@,
{
    let mut i: usize = 0;
    while i < src.len()
        invariant
            i <= src@.len(),
            dst@ == old(dst)@ + src@.take(i as int),
        decreases src@.len() - i,
    {
        dst.push(src[i]);
        i = i + 1;
        assert(dst@ =~= old(dst)@ + src@.take(i as int));
    }
    assert(src@.take(i as int) =~= src@);
}

/// A vector holding the samples of `src`.
pub(crate) fn copy_of<S: Copy>(src: &[S]) -> (r: Vec<S>)
    ensures
        r@ == src@,
{
    let mut r: Vec<S> = Vec::new();
    append_all(&mut r, src);
    assert(r@ =~= src@);
    r
}

impl<S: Copy> VoiceActivityDetector<S> for ScriptedFrameVad {
    open spec fn obeys_decision_spec() -> bool {
        true
    }

    open spec fn spec_answer(&self, frame: Seq<S>) -> Option<Verdict<S>> {
        Some(scripted_verdict(self.upcoming(), frame))
    }

    open spec fn spec_next(&self, frame: Seq<S>) -> ScriptedFrameVad {
        ScriptedFrameVad {
            script: self.script,
            next: if self.next < self.script.len() { (self.next + 1) as usize } else { self.next },
            frame_samples: self.frame_samples,
        }
    }

    fn push_frame(&mut self, frame: &[S]) -> (r: Result<VadFrame<S>, VadError>) {
        if self.next >= self.script.len() {
            return Ok(VadFrame::Noise);
        }
        let c = self.script[self.next];
        self.next = self.next + 1;
        if c == 'S' {
            Ok(VadFrame::Speech(copy_of(frame)))
        } else if c == 'E' {
            Ok(VadFrame::SegmentEnd)
        } else {
            Ok(VadFrame::Noise)
        }
    }

    fn frame_samples(&self) -> usize
        returns
            self.frame_samples,
    {
        self.frame_samples
    }
}

/// A pass-through detector: every frame is kept as speech, and it reports a
/// fixed frame length, as a back end whose frames are not 30 ms long would.
pub struct FixedFrameVad(pub usize);

impl<S: Copy> VoiceActivityDetector<S> for FixedFrameVad {
    open spec fn obeys_decision_spec() -> bool {
        true
    }

    open spec fn spec_answer(&self, frame: Seq<S>) -> Option<Verdict<S>> {
        Some(Verdict::Speech(frame))
    }

    open spec fn spec_next(&self, frame: Seq<S>) -> FixedFrameVad {
        FixedFrameVad(self.0)
    }

    fn push_frame(&mut self, frame: &[S]) -> (r: Result<VadFrame<S>, VadError>) {
        Ok(VadFrame::Speech(copy_of(frame)))
    }

    fn frame_samples(&self) -> usize
        returns
            self.0,
    {
        self.0
    }
}

/// One step of the scripted detector: it answers with the decision of the
/// next script character (noise once the script is spent) and moves past it.
pub proof fn lemma_scripted_step<S: Copy>(d: ScriptedFrameVad, frame: Seq<S>)
    ensures
        VoiceActivityDetector::<S>::spec_answer(&d, frame) == Some(scripted_verdict(d.upcoming(), frame)),
        VoiceActivityDetector::<S>::spec_next(&d, frame).remaining() == if d.remaining().len() > 0 {
            d.remaining().drop_first()
        } else {
            d.remaining()
        },
        VoiceActivityDetector::<S>::spec_next(&d, frame).frame_samples == d.frame_samples,
{
    let n = VoiceActivityDetector::<S>::spec_next(&d, frame);
    if d.next < d.script@.len() {
        assert(n.remaining() =~= d.remaining().drop_first());
    }
}

/// The script characters left once `n` more frames are judged.
pub open spec fn scripted_after(d: ScriptedFrameVad, n: nat) -> Seq<char> {
    if n <= d.remaining().len() {
        d.remaining().skip(n as int)
    } else {
        Seq::empty()
    }
}

/// A detector configuration that replays `script` over 30 ms frames at 16 kHz,
/// with no hangover.
pub fn scripted_vad(script: &str) -> (r: VadConfig<ScriptedFrameVad>)
    ensures
        r.detector.remaining() == script@,
        r.detector.frame_samples == SEG_FRAME,
        r.frame_samples == SEG_FRAME,
        r.offline_hangover_frames == 0,
        r.streaming_hangover_frames == 0,
{
    VadConfig {
        detector: ScriptedFrameVad::new(script, SEG_FRAME),
        frame_samples: SEG_FRAME,
        offline_hangover_frames: 0,
        streaming_hangover_frames: 0,
    }
}

} // verus!
