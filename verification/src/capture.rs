//! The capture path: device blocks are mixed down to stereo, accumulated,
//! sliced into 20 ms frames, and run through the voice-activity detector,
//! which decides for each frame whether it may be encoded and sent.

use vstd::prelude::*;
use crate::vad::FRAME_SAMPLES;
use crate::vad::GateOutcome;
use crate::vad::VadState;
use crate::vad::frame_active;
use crate::vad::frame_energy_active;
use crate::vad::next_hangover;
use crate::vad::vad_wf;

verus! {

/// A device block mixed down to interleaved stereo: mono is duplicated,
/// stereo passes through, and of wider layouts the first two channels of
/// each (possibly trailing) group of at least two samples are kept.
pub open spec fn mixed(data: Seq<i32>, channels: int) -> Seq<i32>
    decreases data.len(),
{
    if channels <= 1 {
        if data.len() == 0 {
            Seq::empty()
        } else {
            seq![data[0], data[0]] + mixed(data.skip(1), channels)
        }
    } else if channels == 2 {
        data
    } else {
        if data.len() < 2 {
            Seq::empty()
        } else if data.len() <= channels {
            seq![data[0], data[1]]
        } else {
            seq![data[0], data[1]] + mixed(data.skip(channels), channels)
        }
    }
}

/// What one 20 ms frame produced: a speaking transition to report, if any,
/// and the frame to encode and send, if the detector let it through.
pub struct FrameOutcome {
    pub transition: Option<bool>,
    pub send_frame: Option<Vec<i32>>,
}

/// Mathematical value of a frame outcome.
#[verifier::ext_equal]
pub struct FrameOutcomeView {
    pub transition: Option<bool>,
    pub send_frame: Option<Seq<i32>>,
}

impl View for FrameOutcome {
    type V = FrameOutcomeView;

    open spec fn view(&self) -> FrameOutcomeView {
        FrameOutcomeView {
            transition: self.transition,
            send_frame: match self.send_frame {
                Some(ref f) => Some(f@),
                None => None,
            },
        }
    }
}

/// View of a vector of frame outcomes.
pub open spec fn outcomes_view(v: Seq<FrameOutcome>) -> Seq<FrameOutcomeView> {
    v.map_values(|o: FrameOutcome| o@)
}

/// The detector's decision on one frame with the given energy state.
pub open spec fn gate_step_spec(v: VadState, active: bool, frame: Seq<i32>) -> (
    VadState,
    FrameOutcomeView,
) {
    let h2 = next_hangover(v.hangover_frames, active);
    let talking = h2 > 0;
    (
        VadState { hangover_frames: h2, was_talking: talking },
        FrameOutcomeView {
            transition: if talking != v.was_talking {
                Some(talking)
            } else {
                None
            },
            send_frame: if talking {
                Some(frame)
            } else {
                None
            },
        },
    )
}

/// Runs the detector over every full frame in the buffer, returning the
/// final detector state, the unsliced remainder, and the outcomes in order.
pub open spec fn gate_frames(v: VadState, buf: Seq<i32>) -> (
    VadState,
    Seq<i32>,
    Seq<FrameOutcomeView>,
)
    decreases buf.len(),
{
    if buf.len() < FRAME_SAMPLES {
        (v, buf, Seq::empty())
    } else {
        let frame = buf.take(FRAME_SAMPLES as int);
        let (v2, outc) = gate_step_spec(v, frame_active(frame), frame);
        let (v3, rem, rest) = gate_frames(v2, buf.skip(FRAME_SAMPLES as int));
        (v3, rem, seq![outc] + rest)
    }
}

/// What a muted block does: the buffer is discarded and a final
/// `speaking = false` transition is reported if one is still owed.
pub open spec fn mute_step(v: VadState) -> (VadState, Seq<FrameOutcomeView>) {
    (
        VadState { hangover_frames: v.hangover_frames, was_talking: false },
        if v.was_talking {
            seq![FrameOutcomeView { transition: Some(false), send_frame: None }]
        } else {
            Seq::empty()
        },
    )
}

/// The capture pipeline state: the stereo accumulation buffer and the
/// voice-activity detector.
pub struct CaptureState {
    pub buf: Vec<i32>,
    pub vad: VadState,
}

/// Capture-state well-formedness.
pub open spec fn capture_wf(c: CaptureState) -> bool {
    &&& vad_wf(c.vad)
    &&& c.buf@.len() < FRAME_SAMPLES
}

impl CaptureState {
    /// A fresh capture pipeline.
    pub fn new() -> (r: CaptureState)
        ensures
            capture_wf(r),
            r.buf@.len() == 0,
            r.vad.hangover_frames == 0,
            !r.vad.was_talking,
    {
        CaptureState { buf: Vec::new(), vad: VadState::new() }
    }

    /// Processes one device block.  Muted blocks are dropped whole, with a
    /// last `speaking = false` transition when one is owed, so no frame of a
    /// muted block is ever sent.  Otherwise the block is mixed down,
    /// accumulated, and every completed 20 ms frame runs through the
    /// detector, which gates sending (discontinuous transmission).
    pub fn process_block(&mut self, muted: bool, data: &Vec<i32>, channels: u16) -> (outs: Vec<
        FrameOutcome,
    >)
        requires
            capture_wf(*old(self)),
            channels >= 1,
        ensures
            capture_wf(*final(self)),
            muted ==> {
                &&& final(self).buf@.len() == 0
                &&& final(self).vad == mute_step(old(self).vad).0
                &&& outcomes_view(outs@) == mute_step(old(self).vad).1
            },
            muted ==> forall|t: int|
                0 <= t < outs@.len() ==> outs@[t]@.send_frame is None,
            !muted ==> {
                let full = old(self).buf@ + mixed(data@, channels as int);
                let (v3, rem, outs_spec) = gate_frames(old(self).vad, full);
                &&& final(self).vad == v3
                &&& final(self).buf@ == rem
                &&& outcomes_view(outs@) == outs_spec
            },
    {
        let mut outs: Vec<FrameOutcome> = Vec::new();
        if muted {
            let outcome = self.vad.gate_frame(true, false);
            self.buf = Vec::new();
            match outcome.transition {
                Some(t) => {
                    outs.push(FrameOutcome { transition: Some(t), send_frame: None });
                },
                None => {},
            }
            proof {
                assert(outcomes_view(outs@) =~= mute_step(old(self).vad).1);
            }
            return outs;
        }
        self.push_samples(data, channels);
        let ghost full = old(self).buf@ + mixed(data@, channels as int);
        let ghost v0 = old(self).vad;
        proof {
            assert(gate_frames(v0, full) == gate_frames(self.vad, self.buf@));
        }
        while self.buf.len() >= FRAME_SAMPLES
            invariant
                vad_wf(self.vad),
                gate_frames(v0, full).0 == gate_frames(self.vad, self.buf@).0,
                gate_frames(v0, full).1 == gate_frames(self.vad, self.buf@).1,
                gate_frames(v0, full).2 == outcomes_view(outs@) + gate_frames(
                    self.vad,
                    self.buf@,
                ).2,
            decreases self.buf@.len(),
        {
            let ghost buf_pre = self.buf@;
            let ghost vad_pre = self.vad;
            let mut frame: Vec<i32> = Vec::new();
            let mut j: usize = 0;
            while j < FRAME_SAMPLES
                invariant
                    j <= FRAME_SAMPLES,
                    self.buf@.len() >= FRAME_SAMPLES,
                    self.buf@ == buf_pre,
                    frame@ == buf_pre.take(j as int),
                decreases FRAME_SAMPLES - j,
            {
                frame.push(self.buf[j]);
                proof {
                    assert(frame@ =~= buf_pre.take(j + 1));
                }
                j = j + 1;
            }
            let mut rest: Vec<i32> = Vec::new();
            let mut k: usize = FRAME_SAMPLES;
            while k < self.buf.len()
                invariant
                    FRAME_SAMPLES <= k <= self.buf@.len(),
                    self.buf@ == buf_pre,
                    rest@ == buf_pre.subrange(FRAME_SAMPLES as int, k as int),
                decreases self.buf@.len() - k,
            {
                rest.push(self.buf[k]);
                proof {
                    assert(rest@ =~= buf_pre.subrange(FRAME_SAMPLES as int, k + 1));
                }
                k = k + 1;
            }
            self.buf = rest;
            let active = frame_energy_active(&frame);
            let outcome: GateOutcome = self.vad.gate_frame(false, active);
            let sent: Option<Vec<i32>> = if outcome.encode_and_send {
                Some(frame)
            } else {
                None
            };
            proof {
                assert(outcomes_view(outs@).len() == outs@.len());
                assert(buf_pre.take(FRAME_SAMPLES as int) =~= buf_pre.take(FRAME_SAMPLES as int));
                assert(self.buf@ =~= buf_pre.skip(FRAME_SAMPLES as int));
                assert(gate_step_spec(vad_pre, frame_active(buf_pre.take(FRAME_SAMPLES as int)),
                    buf_pre.take(FRAME_SAMPLES as int)).0 == self.vad);
            }
            outs.push(FrameOutcome { transition: outcome.transition, send_frame: sent });
            proof {
                let frame_spec = buf_pre.take(FRAME_SAMPLES as int);
                let stepped = gate_step_spec(vad_pre, frame_active(frame_spec), frame_spec);
                assert(outs@.last()@ =~= stepped.1);
                assert(outcomes_view(outs@) =~= outcomes_view(outs@.drop_last()).push(stepped.1));
                assert(gate_frames(v0, full).2 =~= outcomes_view(outs@) + gate_frames(
                    self.vad,
                    self.buf@,
                ).2);
            }
        }
        outs
    }

    /// Mixes a device block down to stereo and appends it to the buffer.
    fn push_samples(&mut self, data: &Vec<i32>, channels: u16)
        requires
            channels >= 1,
        ensures
            final(self).buf@ == old(self).buf@ + mixed(data@, channels as int),
            final(self).vad == old(self).vad,
    {
        let ghost d = data@;
        let ghost ch = channels as int;
        if channels == 2 {
            let mut i: usize = 0;
            while i < data.len()
                invariant
                    i <= d.len(),
                    data@ == d,
                    self.vad == old(self).vad,
                    self.buf@ == old(self).buf@ + d.take(i as int),
                decreases d.len() - i,
            {
                self.buf.push(data[i]);
                proof {
                    assert(self.buf@ =~= old(self).buf@ + d.take(i + 1));
                }
                i = i + 1;
            }
            proof {
                assert(d.take(d.len() as int) =~= d);
                assert(mixed(d, 2) == d);
            }
        } else if channels == 1 {
            let mut i: usize = 0;
            proof {
                assert(d.skip(0) =~= d);
                assert(old(self).buf@ + mixed(d, ch) =~= self.buf@ + mixed(d.skip(0), ch));
            }
            while i < data.len()
                invariant
                    i <= d.len(),
                    data@ == d,
                    ch == 1,
                    self.vad == old(self).vad,
                    old(self).buf@ + mixed(d, ch) == self.buf@ + mixed(d.skip(i as int), ch),
                decreases d.len() - i,
            {
                proof {
                    assert(d.skip(i as int)[0] == d[i as int]);
                    assert(d.skip(i as int).skip(1) =~= d.skip(i + 1));
                }
                let s = data[i];
                self.buf.push(s);
                self.buf.push(s);
                proof {
                    assert(old(self).buf@ + mixed(d, ch) =~= self.buf@ + mixed(
                        d.skip(i + 1),
                        ch,
                    ));
                }
                i = i + 1;
            }
            proof {
                assert(d.skip(d.len() as int).len() == 0);
                assert(old(self).buf@ + mixed(d, ch) =~= self.buf@);
            }
        } else {
            let step = channels as usize;
            let mut i: usize = 0;
            proof {
                assert(d.skip(0) =~= d);
            }
            while i < data.len()
                invariant
                    i <= d.len(),
                    data@ == d,
                    ch == channels as int,
                    ch >= 3,
                    step == channels as usize,
                    self.vad == old(self).vad,
                    old(self).buf@ + mixed(d, ch) == self.buf@ + mixed(d.skip(i as int), ch),
                decreases d.len() - i,
            {
                let remaining = data.len() - i;
                if remaining < 2 {
                    proof {
                        assert(mixed(d.skip(i as int), ch).len() == 0);
                        assert(old(self).buf@ + mixed(d, ch) =~= self.buf@);
                    }
                    return;
                }
                proof {
                    assert(d.skip(i as int)[0] == d[i as int]);
                    assert(d.skip(i as int)[1] == d[i + 1]);
                }
                self.buf.push(data[i]);
                self.buf.push(data[i + 1]);
                if remaining <= step {
                    proof {
                        assert(d.skip(i as int).len() <= ch);
                        assert(mixed(d.skip(i as int), ch) =~= seq![d[i as int], d[i + 1]]);
                        assert(old(self).buf@ + mixed(d, ch) =~= self.buf@);
                    }
                    return;
                }
                proof {
                    assert(d.skip(i as int).skip(ch) =~= d.skip(i + ch));
                    assert(old(self).buf@ + mixed(d, ch) =~= self.buf@ + mixed(
                        d.skip(i + step),
                        ch,
                    ));
                }
                i = i + step;
            }
            proof {
                assert(d.skip(d.len() as int).len() == 0);
                assert(mixed(d.skip(d.len() as int), ch).len() == 0);
                assert(old(self).buf@ + mixed(d, ch) =~= self.buf@);
            }
        }
    }
}

/// One supported device configuration, reduced to its sample-rate range.
pub struct RateRange {
    pub min_rate: u32,
    pub max_rate: u32,
}

/// Does a configuration range admit the 48 kHz pipeline rate?
pub open spec fn supports_pipeline_rate(c: RateRange) -> bool {
    c.min_rate <= 48000 && 48000 <= c.max_rate
}

/// First configuration that admits 48 kHz, if any.
pub open spec fn first_supporting(configs: Seq<RateRange>) -> Option<int> {
    if exists|k: int| 0 <= k < configs.len() && supports_pipeline_rate(configs[k]) {
        Some(
            choose|k: int|
                0 <= k < configs.len() && supports_pipeline_rate(configs[k]) && forall|t: int|
                    0 <= t < k ==> !supports_pipeline_rate(configs[t]),
        )
    } else {
        None
    }
}

/// Picks the device configuration to open and the rate to force on it: the
/// first configuration whose range admits 48 kHz, or the first one at all,
/// and always the internal 48 kHz rate — whatever the device offers, the
/// pipeline negotiates 48 kHz.
pub fn choose_stream_config(configs: &Vec<RateRange>) -> (r: Option<(usize, u32)>)
    ensures
        configs@.len() == 0 <==> r is None,
        match r {
            Some(p) => {
                &&& p.1 == 48000
                &&& p.0 < configs@.len()
                &&& (exists|k: int|
                    0 <= k < configs@.len() && supports_pipeline_rate(configs@[k]))
                    ==> supports_pipeline_rate(configs@[p.0 as int]) && (forall|t: int|
                    0 <= t < p.0 ==> !supports_pipeline_rate(configs@[t]))
                &&& !(exists|k: int|
                    0 <= k < configs@.len() && supports_pipeline_rate(configs@[k])) ==> p.0 == 0
            },
            None => true,
        },
{
    let mut i: usize = 0;
    while i < configs.len()
        invariant
            i <= configs@.len(),
            forall|t: int| 0 <= t < i ==> !supports_pipeline_rate(configs@[t]),
        decreases configs@.len() - i,
    {
        let c = &configs[i];
        if c.min_rate <= 48000 && 48000 <= c.max_rate {
            return Some((i, 48000));
        }
        i = i + 1;
    }
    if configs.len() > 0 {
        Some((0, 48000))
    } else {
        None
    }
}

} // verus!
