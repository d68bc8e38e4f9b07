//! Voice-activity detection with hangover and the discontinuous-transmission
//! gate applied to each 20 ms capture frame.

use vstd::prelude::*;

verus! {

/// Interleaved samples in one 20 ms stereo frame at 48 kHz.
pub const FRAME_SAMPLES: usize = 1920;

/// Frames of forced speech after the energy drops (10 frames = 200 ms).
pub const VAD_HANGOVER: u32 = 10;

/// Samples are fixed-point amplitudes in millionths of full scale.  The
/// speaking threshold is an RMS of 0.005, i.e. 5000 millionths; a frame is
/// active when sqrt(sum(x^2)/n) > 5000, which over the integers is exactly
/// sum(x^2) > n * 5000 * 5000.
pub const VAD_THRESHOLD_SQ: i64 = 25_000_000;

/// Sum of the squares of the samples of a frame.
pub open spec fn sum_squares(s: Seq<i32>) -> int
    decreases s.len(),
{
    if s.len() == 0 {
        0
    } else {
        sum_squares(s.drop_last()) + (s.last() as int) * (s.last() as int)
    }
}

/// A frame counts as speech when its RMS energy exceeds the threshold.
pub open spec fn frame_active(s: Seq<i32>) -> bool {
    sum_squares(s) > s.len() * (VAD_THRESHOLD_SQ as int)
}

proof fn lemma_sum_squares_bounds(s: Seq<i32>)
    ensures
        0 <= sum_squares(s) <= s.len() * 0x4000000000000000,
    decreases s.len(),
{
    if s.len() > 0 {
        lemma_sum_squares_bounds(s.drop_last());
        let x = s.last() as int;
        assert(x * x <= 0x4000000000000000) by (nonlinear_arith)
            requires -0x80000000 <= x <= 0x7fffffff;
        assert(x * x >= 0) by (nonlinear_arith);
        assert((s.len() - 1) * 0x4000000000000000 + 0x4000000000000000 == s.len()
            * 0x4000000000000000) by (nonlinear_arith);
    }
}

/// Decides whether a frame's RMS energy exceeds the speaking threshold.
pub fn frame_energy_active(frame: &Vec<i32>) -> (r: bool)
    ensures
        r == frame_active(frame@),
{
    let mut sum: i128 = 0;
    let mut i: usize = 0;
    while i < frame.len()
        invariant
            i <= frame.len(),
            sum == sum_squares(frame@.subrange(0, i as int)),
        decreases frame.len() - i,
    {
        proof {
            lemma_sum_squares_bounds(frame@.subrange(0, i as int));
            assert(i * 0x4000000000000000 <= 0xffffffffffffffff * 0x4000000000000000)
                by (nonlinear_arith)
                requires i <= 0xffffffffffffffff;
        }
        let x = frame[i] as i64;
        proof {
            assert(x * x <= 0x4000000000000000) by (nonlinear_arith)
                requires -0x80000000 <= x <= 0x7fffffff;
            assert(x * x >= 0) by (nonlinear_arith);
            assert(frame@.subrange(0, i + 1 as int).drop_last() == frame@.subrange(0, i as int));
        }
        sum = sum + (x * x) as i128;
        i = i + 1;
    }
    proof {
        assert(frame@.subrange(0, frame@.len() as int) == frame@);
        lemma_sum_squares_bounds(frame@);
        assert(frame@.len() * 0x4000000000000000 <= 0xffffffffffffffff * 0x4000000000000000)
            by (nonlinear_arith)
            requires frame@.len() <= 0xffffffffffffffff;
        assert(frame@.len() * (VAD_THRESHOLD_SQ as int) <= 0xffffffffffffffff * 25_000_000)
            by (nonlinear_arith)
            requires frame@.len() <= 0xffffffffffffffff;
    }
    sum > (frame.len() as i128) * VAD_THRESHOLD_SQ as i128
}

/// Per-session voice-activity state: the hangover countdown and the last
/// speaking state that was reported.
pub struct VadState {
    pub hangover_frames: u32,
    pub was_talking: bool,
}

/// The hangover countdown never exceeds its reset value.
pub open spec fn vad_wf(v: VadState) -> bool {
    v.hangover_frames <= VAD_HANGOVER
}

/// Hangover update for one frame: an active frame rearms the countdown, a
/// quiet one ticks it down towards zero.
pub open spec fn next_hangover(h: u32, active: bool) -> u32 {
    if active {
        VAD_HANGOVER
    } else if h > 0 {
        (h - 1) as u32
    } else {
        0
    }
}

/// What one frame decides: the speaking transition to report, if any, and
/// whether the frame may be encoded and sent.
pub struct GateOutcome {
    pub transition: Option<bool>,
    pub encode_and_send: bool,
}

impl VadState {
    /// A fresh detector: quiet, nothing reported yet.
    pub fn new() -> (r: VadState)
        ensures
            r.hangover_frames == 0,
            !r.was_talking,
            vad_wf(r),
    {
        VadState { hangover_frames: 0, was_talking: false }
    }

    /// Advances the detector by one 20 ms frame.  With the microphone muted
    /// the frame is dropped outright and a `speaking = false` transition is
    /// reported if one is still owed; otherwise the hangover logic runs and
    /// the frame may be sent exactly while speech is detected.
    pub fn gate_frame(&mut self, muted: bool, active: bool) -> (r: GateOutcome)
        requires
            vad_wf(*old(self)),
        ensures
            vad_wf(*final(self)),
            muted ==> !r.encode_and_send,
            muted ==> !final(self).was_talking,
            muted ==> final(self).hangover_frames == old(self).hangover_frames,
            muted ==> r.transition == (if old(self).was_talking {
                Some(false)
            } else {
                None::<bool>
            }),
            !muted ==> final(self).hangover_frames == next_hangover(
                old(self).hangover_frames,
                active,
            ),
            !muted ==> final(self).was_talking == (final(self).hangover_frames > 0),
            !muted ==> r.encode_and_send == (final(self).hangover_frames > 0),
            !muted ==> r.transition == (if final(self).was_talking != old(self).was_talking {
                Some(final(self).was_talking)
            } else {
                None::<bool>
            }),
    {
        if muted {
            let transition: Option<bool> = if self.was_talking {
                Some(false)
            } else {
                None
            };
            self.was_talking = false;
            GateOutcome { transition, encode_and_send: false }
        } else {
            if active {
                self.hangover_frames = VAD_HANGOVER;
            } else if self.hangover_frames > 0 {
                self.hangover_frames = self.hangover_frames - 1;
            }
            let is_talking = self.hangover_frames > 0;
            let transition: Option<bool> = if is_talking != self.was_talking {
                Some(is_talking)
            } else {
                None
            };
            self.was_talking = is_talking;
            GateOutcome { transition, encode_and_send: is_talking }
        }
    }
}

} // verus!
