//! Decisions of the audio callback: how a captured block is reduced to one
//! channel, whether it is forwarded while the consumer pauses capture, and how
//! much of it fits into the ring buffer.

use vstd::prelude::*;

verus! {

/// What the audio callback does with the block in hand.
#[derive(Clone, Copy, Debug)]
pub enum CallbackAction {
    /// Capture runs: forward the block.
    Forward,
    /// A pause was just requested: the block was captured before the stop, so
    /// forward it, then acknowledge the pause.
    ForwardAndAcknowledge,
    /// Capture is paused: drop the block without counting it as an overrun.
    Drop,
}

/// The pause handshake flags shared by the callback and the consumer.
pub struct PauseFlags {
    pub requested: bool,
    pub acknowledged: bool,
}

pub open spec fn spec_callback_action(requested: bool, acknowledged: bool) -> CallbackAction {
    if !requested {
        CallbackAction::Forward
    } else if !acknowledged {
        CallbackAction::ForwardAndAcknowledge
    } else {
        CallbackAction::Drop
    }
}

/// The flags after the callback carried out `action`.
pub open spec fn flags_after(f: PauseFlags, action: CallbackAction) -> PauseFlags {
    match action {
        CallbackAction::ForwardAndAcknowledge => PauseFlags { requested: f.requested, acknowledged: true },
        _ => f,
    }
}

/// The action for the block in hand, given the pause flags as the callback read them.
pub fn callback_action(pause_requested: bool, pause_acknowledged: bool) -> (r: CallbackAction)
    ensures
        r == spec_callback_action(pause_requested, pause_acknowledged),
{
    if !pause_requested {
        CallbackAction::Forward
    } else if !pause_acknowledged {
        CallbackAction::ForwardAndAcknowledge
    } else {
        CallbackAction::Drop
    }
}

/// The actions of `n` callbacks in a row, none of them seeing the consumer
/// change the flags, and the flags they leave.
pub open spec fn callbacks(f: PauseFlags, n: nat) -> (Seq<CallbackAction>, PauseFlags)
    decreases n,
{
    if n == 0 {
        (Seq::empty(), f)
    } else {
        let (acts, g) = callbacks(f, (n - 1) as nat);
        let a = spec_callback_action(g.requested, g.acknowledged);
        (acts.push(a), flags_after(g, a))
    }
}

/// Once a pause is requested, exactly one block gets through, the one in
/// hand when the request is first seen; every later block is dropped until
/// the consumer clears the flags.
pub proof fn lemma_pause_forwards_exactly_one_block(n: nat)
    requires
        n >= 1,
    ensures
        ({
            let (acts, g) = callbacks(PauseFlags { requested: true, acknowledged: false }, n);
            &&& acts.len() == n
            &&& acts[0] == CallbackAction::ForwardAndAcknowledge
            &&& forall|i: int| 1 <= i < n ==> acts[i] == CallbackAction::Drop
            &&& g == (PauseFlags { requested: true, acknowledged: true })
        }),
    decreases n,
{
    if n > 1 {
        lemma_pause_forwards_exactly_one_block((n - 1) as nat);
        let (acts0, g0) = callbacks(PauseFlags { requested: true, acknowledged: false }, (n - 1) as nat);
        let (acts, g) = callbacks(PauseFlags { requested: true, acknowledged: false }, n);
        assert(acts == acts0.push(CallbackAction::Drop));
        assert forall|i: int| 1 <= i < n implies acts[i] == CallbackAction::Drop by {
            if i < n - 1 {
                assert(acts[i] == acts0[i]);
            }
        }
    } else {
        let (acts, g) = callbacks(PauseFlags { requested: true, acknowledged: false }, n);
        assert(callbacks(PauseFlags { requested: true, acknowledged: false }, 0).0 =~= Seq::<CallbackAction>::empty());
        assert(acts =~= seq![CallbackAction::ForwardAndAcknowledge]);
    }
}

/// How a block of `block_len` samples meets a ring with `free_slots` free
/// slots: the leading part that fits is written, the rest is dropped and
/// counted as an overrun.
pub struct RingWrite {
    pub written: usize,
    pub dropped: usize,
}

pub fn plan_ring_write(block_len: usize, free_slots: usize) -> (r: RingWrite)
    ensures
        r.written == if block_len <= free_slots { block_len } else { free_slots },
        r.written + r.dropped == block_len,
{
    if block_len <= free_slots {
        RingWrite { written: block_len, dropped: 0 }
    } else {
        RingWrite { written: free_slots, dropped: block_len - free_slots }
    }
}

/// The whole effect of one audio callback on the ring and the flags.
pub struct CallbackPlan {
    /// Whether the block goes to the ring at all.
    pub forward: bool,
    /// How much of the block is written, and how much does not fit.
    pub write: RingWrite,
    /// Whether the pause is to be acknowledged after the write.
    pub acknowledge: bool,
}

/// What the callback does with a block of `block_len` samples, given the
/// pause flags as it read them and the ring's `free_slots`. A block dropped
/// during a pause is neither written nor counted as an overrun.
pub fn plan_callback(pause_requested: bool, pause_acknowledged: bool, block_len: usize, free_slots: usize) -> (r: CallbackPlan)
    ensures
        r.forward == !(spec_callback_action(pause_requested, pause_acknowledged) is Drop),
        r.acknowledge == spec_callback_action(pause_requested, pause_acknowledged) is ForwardAndAcknowledge,
        r.forward ==> {
            &&& r.write.written == if block_len <= free_slots { block_len } else { free_slots }
            &&& r.write.written + r.write.dropped == block_len
        },
        !r.forward ==> r.write.written == 0 && r.write.dropped == 0,
{
    let action = callback_action(pause_requested, pause_acknowledged);
    match action {
        CallbackAction::Drop => CallbackPlan {
            forward: false,
            write: RingWrite { written: 0, dropped: 0 },
            acknowledge: false,
        },
        CallbackAction::Forward => CallbackPlan {
            forward: true,
            write: plan_ring_write(block_len, free_slots),
            acknowledge: false,
        },
        CallbackAction::ForwardAndAcknowledge => CallbackPlan {
            forward: true,
            write: plan_ring_write(block_len, free_slots),
            acknowledge: true,
        },
    }
}

/// The samples to count as an overrun after a block met the ring: the part
/// that did not fit, and also the part meant to fit where writing it failed.
pub fn overrun_count(plan: &RingWrite, written_ok: bool) -> (r: usize)
    requires
        plan.written + plan.dropped <= usize::MAX,
    ensures
        r == if written_ok { plan.dropped as int } else { plan.written + plan.dropped },
{
    if written_ok {
        plan.dropped
    } else {
        plan.written + plan.dropped
    }
}

/// How many samples a consumer cycle takes from a ring holding `available`:
/// all of them, but at most `max`.
pub fn drain_limit(available: usize, max: usize) -> (r: usize)
    ensures
        r == if available <= max { available } else { max },
{
    if available <= max {
        available
    } else {
        max
    }
}

/// How interleaved input is reduced to one channel.
#[derive(Clone, Copy, Debug)]
pub enum ChannelPlan {
    /// The input is already mono.
    PassThrough,
    /// Keep this channel of each interleaved frame.
    Select(usize),
    /// Average the channels of each interleaved frame.
    Average,
}

pub open spec fn spec_channel_plan(channels: usize, selected: Option<usize>) -> ChannelPlan {
    if channels <= 1 {
        ChannelPlan::PassThrough
    } else {
        match selected {
            Some(c) => if c < channels {
                ChannelPlan::Select(c)
            } else {
                ChannelPlan::Average
            },
            None => ChannelPlan::Average,
        }
    }
}

/// The reduction for `channels` interleaved channels, of which `selected` was
/// chosen by the user, if any. A choice of a channel that the device lacks is
/// ignored.
pub fn channel_plan(channels: usize, selected: Option<usize>) -> (r: ChannelPlan)
    ensures
        r == spec_channel_plan(channels, selected),
{
    if channels <= 1 {
        ChannelPlan::PassThrough
    } else {
        match selected {
            Some(c) => if c < channels {
                ChannelPlan::Select(c)
            } else {
                ChannelPlan::Average
            },
            None => ChannelPlan::Average,
        }
    }
}

/// Channel `channel` of each whole interleaved frame of `input`, in order; a
/// trailing partial frame is ignored.
pub fn select_channel<T: Copy>(input: &[T], channels: usize, channel: usize) -> (r: Vec<T>)
    requires
        channel < channels,
    ensures
        r@.len() == input@.len() / (channels as nat),
        forall|j: int| 0 <= j < r@.len() ==> #[trigger] r@[j] == input@[j * channels + channel],
{
    let mut r: Vec<T> = Vec::new();
    let mut base: usize = 0;
    proof {
        let n = r@.len() as int;
        assert(n * channels == 0) by (nonlinear_arith)
            requires
                n == 0,
        ;
    }
    while base <= input.len() && channels <= input.len() - base
        invariant
            channel < channels,
            base <= input@.len(),
            base == r@.len() * channels,
            forall|j: int| 0 <= j < r@.len() ==> #[trigger] r@[j] == input@[j * channels + channel],
        decreases input@.len() - base,
    {
        r.push(input[base + channel]);
        proof {
            assert(r@.len() * channels == (r@.len() - 1) * channels + channels) by (nonlinear_arith);
        }
        base = base + channels;
    }
    proof {
        let len = input@.len() as int;
        let n = r@.len() as int;
        let c = channels as int;
        assert(n * c <= len && len < n * c + c);
        assert(len / c == n) by (nonlinear_arith)
            requires
                n * c <= len,
                len < n * c + c,
                c > 0,
                n >= 0,
        ;
    }
    r
}


/// On a device with several channels, a channel the user selected and the
/// device has is kept, whichever it is (the first included); the channels
/// are averaged only when nothing is selected or the selection is beyond the
/// device's channels; a mono device passes through.
pub proof fn lemma_selected_channel_is_kept(channels: usize, selected: Option<usize>)
    ensures
        channels > 1 && (selected matches Some(c) && c < channels) ==> spec_channel_plan(channels, selected)
            == ChannelPlan::Select(selected.unwrap()),
        spec_channel_plan(channels, selected) is Average <==> channels > 1 && (selected is None || selected.unwrap()
            >= channels),
        spec_channel_plan(channels, selected) is PassThrough <==> channels <= 1,
        spec_channel_plan(channels, selected) matches ChannelPlan::Select(c) ==> selected == Some(c) && c < channels,
{
}

} // verus!
